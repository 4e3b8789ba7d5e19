//! A list of entries that are found by a name: who is known, in the order they came to be.

use vstd::prelude::*;

verus! {

/// The place of the first entry under `key`, or the length of the list.
pub open spec fn place<T>(rows: Seq<(Seq<char>, T)>, key: Seq<char>) -> int
    decreases rows.len(),
{
    if rows.len() == 0 || rows[0].0 == key {
        0
    } else {
        1 + place(rows.drop_first(), key)
    }
}

pub open spec fn knows<T>(rows: Seq<(Seq<char>, T)>, key: Seq<char>) -> bool {
    place(rows, key) < rows.len()
}

/// The first entry under `key`.
pub open spec fn look_up<T>(rows: Seq<(Seq<char>, T)>, key: Seq<char>) -> Option<T> {
    if knows(rows, key) {
        Some(rows[place(rows, key)].1)
    } else {
        None
    }
}

/// The entry that stood under `key` is replaced, or a new one stands at the end.
pub open spec fn remembered<T>(rows: Seq<(Seq<char>, T)>, key: Seq<char>, entry: T) -> Seq<
    (Seq<char>, T),
> {
    if knows(rows, key) {
        rows.update(place(rows, key), (key, entry))
    } else {
        rows.push((key, entry))
    }
}

/// The first entry under `key` is gone.
pub open spec fn forgotten<T>(rows: Seq<(Seq<char>, T)>, key: Seq<char>) -> Seq<(Seq<char>, T)> {
    if knows(rows, key) {
        rows.remove(place(rows, key))
    } else {
        rows
    }
}

/// No two entries share a key.
pub open spec fn distinct<T>(rows: Seq<(Seq<char>, T)>) -> bool {
    forall|i: int, j: int| 0 <= i < j < rows.len() ==> #[trigger] rows[i].0 != #[trigger] rows[j].0
}

pub proof fn lemma_place<T>(rows: Seq<(Seq<char>, T)>, key: Seq<char>)
    ensures
        0 <= place(rows, key) <= rows.len(),
        knows(rows, key) ==> rows[place(rows, key)].0 == key,
        forall|i: int| 0 <= i < place(rows, key) ==> #[trigger] rows[i].0 != key,
    decreases rows.len(),
{
    if rows.len() > 0 && rows[0].0 != key {
        let rest = rows.drop_first();
        lemma_place(rest, key);
        assert forall|i: int| 0 <= i < place(rows, key) implies #[trigger] rows[i].0 != key by {
            if i > 0 {
                assert(rest[i - 1] == rows[i]);
            }
        }
    }
}

pub proof fn lemma_place_is<T>(rows: Seq<(Seq<char>, T)>, key: Seq<char>, k: int)
    requires
        0 <= k <= rows.len(),
        k < rows.len() ==> rows[k].0 == key,
        forall|i: int| 0 <= i < k ==> #[trigger] rows[i].0 != key,
    ensures
        place(rows, key) == k,
{
    lemma_place(rows, key);
    if place(rows, key) < k {
        assert(rows[place(rows, key)].0 != key);
    }
}

// ---------------------------------------------------------------------------
// what holds of every book
// ---------------------------------------------------------------------------

/// What is remembered is found, and nothing else that was there is lost or changed.
pub proof fn law_remembering_changes_one_entry_and_no_other<T>(
    rows: Seq<(Seq<char>, T)>,
    key: Seq<char>,
    entry: T,
    other: Seq<char>,
)
    requires
        other != key,
    ensures
        look_up(remembered(rows, key, entry), key) == Some(entry),
        look_up(remembered(rows, key, entry), other) == look_up(rows, other),
{
    lemma_place(rows, key);
    lemma_place(rows, other);
    let after = remembered(rows, key, entry);
    let k = place(rows, key);
    let o = place(rows, other);
    if knows(rows, key) {
        assert forall|i: int| 0 <= i < k implies #[trigger] after[i].0 != key by {
            assert(after[i] == rows[i]);
        }
        lemma_place_is(after, key, k);
        assert forall|i: int| 0 <= i < o implies #[trigger] after[i].0 != other by {
            if i != k {
                assert(after[i] == rows[i]);
            }
        }
        lemma_place_is(after, other, o);
    } else {
        assert forall|i: int| 0 <= i < rows.len() implies #[trigger] after[i].0 != key by {
            assert(after[i] == rows[i]);
        }
        lemma_place_is(after, key, rows.len() as int);
        assert forall|i: int| 0 <= i < o implies #[trigger] after[i].0 != other by {
            assert(after[i] == rows[i]);
        }
        if o < rows.len() {
            assert(after[o] == rows[o]);
            lemma_place_is(after, other, o);
        } else {
            assert(after[o] == (key, entry));
            lemma_place_is(after, other, o + 1);
        }
    }
}

/// Remembering twice updates rather than duplicating: one key has one entry.
pub proof fn law_one_key_has_one_entry<T>(rows: Seq<(Seq<char>, T)>, key: Seq<char>, entry: T)
    requires
        distinct(rows),
    ensures
        distinct(remembered(rows, key, entry)),
        knows(rows, key) ==> remembered(rows, key, entry).len() == rows.len(),
        distinct(forgotten(rows, key)),
{
    lemma_place(rows, key);
    let after = remembered(rows, key, entry);
    assert forall|i: int, j: int| 0 <= i < j < after.len() implies #[trigger] after[i].0
        != #[trigger] after[j].0 by {
        if knows(rows, key) {
            assert(after[i].0 == rows[i].0);
            assert(after[j].0 == rows[j].0);
        } else {
            assert(after[i] == rows[i]);
            if j < rows.len() {
                assert(after[j] == rows[j]);
            }
        }
    }
    if knows(rows, key) {
        let k = place(rows, key);
        let less = forgotten(rows, key);
        assert forall|i: int, j: int| 0 <= i < j < less.len() implies #[trigger] less[i].0
            != #[trigger] less[j].0 by {
            assert(less[i] == rows[if i < k { i } else { i + 1 }]);
            assert(less[j] == rows[if j < k { j } else { j + 1 }]);
        }
    }
}

/// Forgetting is by key: that one is gone, and every other is as it was.
pub proof fn law_forgetting_takes_one_key_and_no_other<T>(
    rows: Seq<(Seq<char>, T)>,
    key: Seq<char>,
    other: Seq<char>,
)
    requires
        distinct(rows),
        other != key,
    ensures
        look_up(forgotten(rows, key), key) is None,
        look_up(forgotten(rows, key), other) == look_up(rows, other),
{
    lemma_place(rows, key);
    lemma_place(rows, other);
    if knows(rows, key) {
        let k = place(rows, key);
        let o = place(rows, other);
        let after = forgotten(rows, key);
        assert forall|i: int| 0 <= i < after.len() implies #[trigger] after[i].0 != key by {
            if i < k {
                assert(after[i] == rows[i]);
            } else {
                assert(after[i] == rows[i + 1]);
                assert(rows[k].0 != rows[i + 1].0);
            }
        }
        lemma_place_is(after, key, after.len() as int);
        let p = if o <= k { o } else { o - 1 };
        assert forall|i: int| 0 <= i < p implies #[trigger] after[i].0 != other by {
            assert(after[i] == rows[if i < k { i } else { i + 1 }]);
        }
        if o < rows.len() {
            assert(after[p] == rows[o]);
        }
        lemma_place_is(after, other, p);
    }
}

/// An entry is found under its key, wherever on the list it stands, and nothing is found under
/// a key that no entry has. Of those that share a key, the first is.
pub proof fn law_an_entry_is_found_by_its_key<T>(rows: Seq<(Seq<char>, T)>, key: Seq<char>, i: int)
    ensures
        knows(rows, key) <==> exists|k: int| 0 <= k < rows.len() && (#[trigger] rows[k]).0 == key,
        look_up(rows, key) is Some <==> knows(rows, key),
        0 <= i < rows.len() && rows[i].0 == key && (forall|k: int|
            0 <= k < i ==> (#[trigger] rows[k]).0 != key) ==> look_up(rows, key) == Some(rows[i].1),
{
    lemma_place(rows, key);
    if 0 <= i < rows.len() && rows[i].0 == key && (forall|k: int|
        0 <= k < i ==> (#[trigger] rows[k]).0 != key) {
        lemma_place_is(rows, key, i);
    }
    if knows(rows, key) {
        assert(rows[place(rows, key)].0 == key);
    }
}

/// What is new is remembered behind everything else; what is forgotten leaves the rest in order.
pub proof fn law_a_list_keeps_its_order<T>(
    rows: Seq<(Seq<char>, T)>,
    more: Seq<(Seq<char>, T)>,
    key: Seq<char>,
    entry: T,
    other: T,
)
    requires
        forall|k: int| 0 <= k < rows.len() ==> (#[trigger] rows[k]).0 != key,
    ensures
        remembered(rows, key, entry) == rows.push((key, entry)),
        remembered(rows + seq![(key, other)] + more, key, entry) == rows + seq![(key, entry)]
            + more,
        forgotten(rows, key) == rows,
        forgotten(rows + seq![(key, other)] + more, key) == rows + more,
{
    lemma_place_is(rows, key, rows.len() as int);
    let all = rows + seq![(key, other)] + more;
    assert forall|k: int| 0 <= k < rows.len() implies #[trigger] all[k].0 != key by {
        assert(all[k] == rows[k]);
    }
    lemma_place_is(all, key, rows.len() as int);
    assert(remembered(all, key, entry) =~= rows + seq![(key, entry)] + more);
    assert(forgotten(all, key) =~= rows + more);
}

} // verus!
