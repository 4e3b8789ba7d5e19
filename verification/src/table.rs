//! A dictionary keyed by text, walked in the order of its keys.

use vstd::prelude::*;
use vstd::string::*;

use crate::text;

verus! {

/// One element more is one that is contained more.
pub proof fn lemma_take_contains<T>(s: Seq<T>, i: int, x: T)
    requires
        0 <= i < s.len(),
    ensures
        s.take(i + 1).contains(x) == (s.take(i).contains(x) || x == s[i]),
{
    let less = s.take(i);
    let more = s.take(i + 1);
    if less.contains(x) {
        let k = choose|k: int| 0 <= k < less.len() && less[k] == x;
        assert(more[k] == x);
    }
    if x == s[i] {
        assert(more[i] == x);
    }
    if more.contains(x) && x != s[i] {
        let k = choose|k: int| 0 <= k < more.len() && more[k] == x;
        assert(less[k] == x);
    }
}

/// Strictly ascending by key: no key stands twice.
pub open spec fn ascending<T>(s: Seq<(Seq<char>, T)>) -> bool {
    forall|i: int, j: int| 0 <= i < j < s.len() ==> text::precedes(#[trigger] s[i].0, #[trigger] s[j].0)
}

pub open spec fn has_key<T>(s: Seq<(Seq<char>, T)>, key: Seq<char>) -> bool {
    exists|i: int| 0 <= i < s.len() && #[trigger] s[i].0 == key
}

pub open spec fn value_of<T>(s: Seq<(Seq<char>, T)>, key: Seq<char>) -> T {
    s[choose|i: int| 0 <= i < s.len() && #[trigger] s[i].0 == key].1
}

/// What a row of entries looks up.
pub open spec fn dict_of<T>(s: Seq<(Seq<char>, T)>) -> Map<Seq<char>, T> {
    Map::new(|key: Seq<char>| has_key(s, key), |key: Seq<char>| value_of(s, key))
}

/// An entry of an ascending row is what its key looks up.
pub proof fn lemma_entry<T>(s: Seq<(Seq<char>, T)>, i: int)
    requires
        ascending(s),
        0 <= i < s.len(),
    ensures
        dict_of(s).dom().contains(s[i].0),
        dict_of(s)[s[i].0] == s[i].1,
{
    let k = choose|k: int| 0 <= k < s.len() && #[trigger] s[k].0 == s[i].0;
    if k < i {
        text::lemma_precedes_irreflexive(s[i].0);
    } else if i < k {
        text::lemma_precedes_irreflexive(s[i].0);
    }
}

/// Two ascending rows that look up the same are the same row.
pub proof fn lemma_same_dict<T>(a: Seq<(Seq<char>, T)>, b: Seq<(Seq<char>, T)>)
    requires
        ascending(a),
        ascending(b),
        dict_of(a) == dict_of(b),
    ensures
        a == b,
    decreases a.len(),
{
    if a.len() == 0 {
        if b.len() > 0 {
            lemma_entry(b, 0);
        }
        assert(a =~= b);
    } else {
        lemma_entry(a, a.len() - 1);
        let last = a.last().0;
        assert(has_key(b, last));
        let k = choose|k: int| 0 <= k < b.len() && #[trigger] b[k].0 == last;
        if k < b.len() - 1 {
            lemma_entry(b, b.len() - 1);
            assert(has_key(a, b.last().0));
            let m = choose|m: int| 0 <= m < a.len() && #[trigger] a[m].0 == b.last().0;
            assert(text::precedes(b[k].0, b.last().0));
            if m < a.len() - 1 {
                text::lemma_precedes_asymmetric(last, b.last().0);
                assert(text::precedes(a[m].0, a.last().0));
            } else {
                text::lemma_precedes_irreflexive(last);
            }
        }
        lemma_entry(b, k);
        assert(a.last() == b.last());
        let x = a.drop_last();
        let y = b.drop_last();
        assert(ascending(x));
        assert(ascending(y));
        assert forall|key: Seq<char>| #[trigger] has_key(x, key) == has_key(y, key) && (has_key(
            x,
            key,
        ) ==> value_of(x, key) == value_of(y, key)) by {
            lemma_without_last(a, key);
            lemma_without_last(b, key);
            assert(has_key(a, key) == dict_of(a).dom().contains(key));
            assert(has_key(b, key) == dict_of(b).dom().contains(key));
            if has_key(a, key) {
                assert(dict_of(a)[key] == value_of(a, key));
                assert(dict_of(b)[key] == value_of(b, key));
            }
        }
        assert(dict_of(x) =~= dict_of(y));
        lemma_same_dict(x, y);
        assert(a =~= x.push(a.last()));
        assert(b =~= y.push(b.last()));
    }
}

proof fn lemma_without_last<T>(s: Seq<(Seq<char>, T)>, key: Seq<char>)
    requires
        ascending(s),
        s.len() > 0,
    ensures
        has_key(s.drop_last(), key) == (has_key(s, key) && key != s.last().0),
        has_key(s.drop_last(), key) ==> value_of(s.drop_last(), key) == value_of(s, key),
{
    let t = s.drop_last();
    assert(ascending(t));
    text::lemma_precedes_irreflexive(key);
    if has_key(t, key) {
        let i = choose|i: int| 0 <= i < t.len() && #[trigger] t[i].0 == key;
        assert(s[i].0 == key);
        assert(text::precedes(s[i].0, s[s.len() - 1].0));
        lemma_entry(s, i);
        lemma_entry(t, i);
        assert(dict_of(t)[t[i].0] == t[i].1);
        assert(dict_of(s)[s[i].0] == s[i].1);
    }
    if has_key(s, key) && key != s.last().0 {
        let i = choose|i: int| 0 <= i < s.len() && #[trigger] s[i].0 == key;
        assert(t[i].0 == key);
    }
}

/// The keys of a row.
pub open spec fn keys_of<T>(s: Seq<(Seq<char>, T)>) -> Set<Seq<char>> {
    dict_of(s).dom()
}

/// One entry more is one key more.
pub proof fn lemma_keys_grow<T>(s: Seq<(Seq<char>, T)>, i: int)
    requires
        ascending(s),
        0 <= i < s.len(),
    ensures
        !keys_of(s.take(i)).contains(s[i].0),
        keys_of(s.take(i + 1)) == keys_of(s.take(i)).insert(s[i].0),
{
    text::lemma_precedes_irreflexive(s[i].0);
    let less = s.take(i);
    let more = s.take(i + 1);
    assert forall|k: int| 0 <= k < less.len() implies #[trigger] less[k].0 != s[i].0 by {
        assert(text::precedes(s[k].0, s[i].0));
    }
    assert forall|key: Seq<char>| #[trigger] has_key(more, key) == (has_key(less, key) || key
        == s[i].0) by {
        if has_key(less, key) {
            let k = choose|k: int| 0 <= k < less.len() && #[trigger] less[k].0 == key;
            assert(more[k].0 == key);
        }
        if key == s[i].0 {
            assert(more[i].0 == key);
        }
        if has_key(more, key) && key != s[i].0 {
            let k = choose|k: int| 0 <= k < more.len() && #[trigger] more[k].0 == key;
            assert(less[k].0 == key);
        }
    }
    assert(keys_of(more) =~= keys_of(less).insert(s[i].0));
}

pub proof fn lemma_keys_finite<T>(s: Seq<(Seq<char>, T)>)
    requires
        ascending(s),
    ensures
        keys_of(s).finite(),
        keys_of(s).len() == s.len(),
    decreases s.len(),
{
    if s.len() == 0 {
        assert(keys_of(s) =~= Set::<Seq<char>>::empty());
    } else {
        let less = s.take(s.len() - 1);
        assert(ascending(less));
        lemma_keys_finite(less);
        lemma_keys_grow(s, s.len() - 1);
        assert(s.take(s.len() as int) =~= s);
    }
}

/// One entry more is one more of a kind, or none.
pub proof fn lemma_count_grow<T>(s: Seq<(Seq<char>, T)>, i: int, kind: spec_fn(Seq<char>) -> bool)
    requires
        ascending(s),
        0 <= i < s.len(),
    ensures
        keys_of(s.take(i + 1)).filter(kind).len() == keys_of(s.take(i)).filter(kind).len() + if kind(
            s[i].0,
        ) {
            1nat
        } else {
            0nat
        },
        keys_of(s.take(i)).filter(kind).len() <= i,
{
    lemma_keys_grow(s, i);
    assert(ascending(s.take(i)));
    lemma_keys_finite(s.take(i));
    let less = keys_of(s.take(i)).filter(kind);
    let more = keys_of(s.take(i + 1)).filter(kind);
    vstd::set_lib::lemma_len_subset(less, keys_of(s.take(i)));
    if kind(s[i].0) {
        assert(more =~= less.insert(s[i].0));
    } else {
        assert(more =~= less);
    }
}

/// The sum of `worth` over a set of keys.
pub open spec fn sum_over(keys: Set<Seq<char>>, worth: spec_fn(Seq<char>) -> nat) -> nat
    decreases keys.len(),
    when keys.finite()
{
    if keys.len() == 0 {
        0
    } else {
        let key = keys.choose();
        worth(key) + sum_over(keys.remove(key), worth)
    }
}

/// Any key may be taken out of the sum first.
pub proof fn lemma_sum_remove(
    keys: Set<Seq<char>>,
    worth: spec_fn(Seq<char>) -> nat,
    key: Seq<char>,
)
    requires
        keys.finite(),
        keys.contains(key),
    ensures
        sum_over(keys, worth) == worth(key) + sum_over(keys.remove(key), worth),
    decreases keys.len(),
{
    assert(keys.len() > 0) by {
        assert(keys.remove(key).len() < keys.len());
    }
    let first = keys.choose();
    if first != key {
        let rest = keys.remove(first);
        lemma_sum_remove(rest, worth, key);
        lemma_sum_remove(keys.remove(key), worth, first);
        assert(rest.remove(key) =~= keys.remove(key).remove(first));
    }
}

pub proof fn lemma_sum_insert(
    keys: Set<Seq<char>>,
    worth: spec_fn(Seq<char>) -> nat,
    key: Seq<char>,
)
    requires
        keys.finite(),
        !keys.contains(key),
    ensures
        sum_over(keys.insert(key), worth) == worth(key) + sum_over(keys, worth),
{
    lemma_sum_remove(keys.insert(key), worth, key);
    assert(keys.insert(key).remove(key) =~= keys);
}

/// The sum depends on what its keys are worth and on nothing else.
pub proof fn lemma_sum_same(
    keys: Set<Seq<char>>,
    a: spec_fn(Seq<char>) -> nat,
    b: spec_fn(Seq<char>) -> nat,
)
    requires
        keys.finite(),
        forall|key: Seq<char>| keys.contains(key) ==> #[trigger] a(key) == b(key),
    ensures
        sum_over(keys, a) == sum_over(keys, b),
    decreases keys.len(),
{
    if keys.len() > 0 {
        let key = keys.choose();
        lemma_sum_same(keys.remove(key), a, b);
    }
}

/// A row with one key more.
proof fn lemma_row_insert<T>(s: Seq<(Seq<char>, T)>, key: Seq<char>, value: T) -> (r: Seq<
    (Seq<char>, T),
>)
    requires
        ascending(s),
        !has_key(s, key),
    ensures
        ascending(r),
        dict_of(r) == dict_of(s).insert(key, value),
    decreases s.len(),
{
    if s.len() == 0 || text::precedes(s.last().0, key) {
        let r = s.push((key, value));
        assert forall|i: int, j: int| 0 <= i < j < r.len() implies text::precedes(
            #[trigger] r[i].0,
            #[trigger] r[j].0,
        ) by {
            if j == s.len() && i < s.len() - 1 {
                text::lemma_precedes_transitive(s[i].0, s.last().0, key);
            }
        }
        lemma_row_push(s, key, value);
        r
    } else {
        text::lemma_precedes_total(s.last().0, key);
        assert(s.last().0 != key) by {
            if s.last().0 == key {
                assert(s[s.len() - 1].0 == key);
            }
        }
        let less = s.drop_last();
        assert(!has_key(less, key)) by {
            lemma_without_last(s, key);
        }
        let rest = lemma_row_insert(less, key, value);
        let last = s.last();
        let r = rest.push(last);
        assert forall|i: int| 0 <= i < rest.len() implies text::precedes(
            #[trigger] rest[i].0,
            last.0,
        ) by {
            lemma_entry(rest, i);
            assert(dict_of(rest).dom().contains(rest[i].0));
            if rest[i].0 != key {
                assert(has_key(less, rest[i].0));
                let k = choose|k: int| 0 <= k < less.len() && #[trigger] less[k].0 == rest[i].0;
                assert(text::precedes(s[k].0, s[s.len() - 1].0));
            }
        }
        assert(ascending(r));
        lemma_row_push(rest, last.0, last.1);
        lemma_row_push(less, last.0, last.1);
        assert(less.push(last) =~= s);
        assert(dict_of(r) =~= dict_of(s).insert(key, value));
        r
    }
}

/// A row with a last entry more that its keys all precede.
proof fn lemma_row_push<T>(s: Seq<(Seq<char>, T)>, key: Seq<char>, value: T)
    requires
        ascending(s.push((key, value))),
    ensures
        dict_of(s.push((key, value))) == dict_of(s).insert(key, value),
{
    let r = s.push((key, value));
    assert(r.drop_last() =~= s);
    assert forall|q: Seq<char>|
        #![trigger has_key(r, q)]
        has_key(r, q) == (has_key(s, q) || q == key) && (has_key(r, q) ==> value_of(r, q) == if q
            == key {
            value
        } else {
            value_of(s, q)
        }) by {
        lemma_without_last(r, q);
        if q == key {
            assert(r[s.len() as int].0 == q);
            lemma_entry(r, s.len() as int);
            assert(dict_of(r)[q] == value_of(r, q));
        }
        text::lemma_precedes_irreflexive(key);
        if has_key(s, q) {
            let k = choose|k: int| 0 <= k < s.len() && #[trigger] s[k].0 == q;
            assert(r[k].0 == q);
        }
    }
    assert(dict_of(r) =~= dict_of(s).insert(key, value));
}

/// The entries of a dictionary, by ascending key.
pub open spec fn row_of<T>(dict: Map<Seq<char>, T>) -> Seq<(Seq<char>, T)> {
    choose|s: Seq<(Seq<char>, T)>| ascending(s) && dict_of(s) == dict
}

proof fn lemma_row_exists<T>(dict: Map<Seq<char>, T>) -> (s: Seq<(Seq<char>, T)>)
    requires
        dict.dom().finite(),
    ensures
        ascending(s),
        dict_of(s) == dict,
    decreases dict.dom().len(),
{
    if dict.dom().len() == 0 {
        dict.dom().lemma_len0_is_empty();
        let s = Seq::<(Seq<char>, T)>::empty();
        assert(dict_of(s) =~= dict);
        s
    } else {
        let key = dict.dom().choose();
        let rest = lemma_row_exists(dict.remove(key));
        assert(!has_key(rest, key)) by {
            assert(!dict_of(rest).dom().contains(key));
        }
        let s = lemma_row_insert(rest, key, dict[key]);
        assert(dict_of(s) =~= dict);
        s
    }
}

/// A finite dictionary has its row.
pub proof fn lemma_row_of<T>(dict: Map<Seq<char>, T>)
    requires
        dict.dom().finite(),
    ensures
        ascending(row_of(dict)),
        dict_of(row_of(dict)) == dict,
{
    let s = lemma_row_exists(dict);
    assert(ascending(s) && dict_of(s) == dict);
}

/// An ascending row is the row of what it looks up.
pub proof fn lemma_row_is<T>(s: Seq<(Seq<char>, T)>)
    requires
        ascending(s),
    ensures
        s == row_of(dict_of(s)),
        dict_of(s).dom().finite(),
{
    lemma_keys_finite(s);
    lemma_row_of(dict_of(s));
    lemma_same_dict(s, row_of(dict_of(s)));
}

/// A dictionary from text to `V`.
#[derive(Debug)]
pub struct Table<V> {
    entries: Vec<(String, V)>,
}

impl<V: View> View for Table<V> {
    type V = Seq<(Seq<char>, V::V)>;

    /// The entries, by ascending key.
    closed spec fn view(&self) -> Seq<(Seq<char>, V::V)> {
        self.entries@.map_values(|e: (String, V)| (e.0@, e.1@))
    }
}

impl<V> Table<V> {
    #[verifier::type_invariant]
    spec fn ordered(self) -> bool {
        forall|i: int, j: int|
            0 <= i < j < self.entries@.len() ==> text::precedes(
                (#[trigger] self.entries@[i]).0@,
                (#[trigger] self.entries@[j]).0@,
            )
    }
}

impl<V: View> Table<V> {
    /// What each key looks up.
    pub open spec fn dict(&self) -> Map<Seq<char>, V::V> {
        dict_of(self@)
    }

    pub fn new() -> (r: Self)
        ensures
            r@ == Seq::<(Seq<char>, V::V)>::empty(),
            r.dict() == Map::<Seq<char>, V::V>::empty(),
    {
        let r = Table { entries: Vec::new() };
        assert(r@ =~= Seq::<(Seq<char>, V::V)>::empty());
        assert(r.dict() =~= Map::<Seq<char>, V::V>::empty());
        r
    }

    /// Where `key` stands, or where it would have to be put.
    fn place(&self, key: &str) -> (r: (usize, bool))
        ensures
            ascending(self@),
            r.0 <= self@.len(),
            r.1 == self.dict().dom().contains(key@),
            r.1 ==> r.0 < self@.len() && self@[r.0 as int].0 == key@,
            forall|i: int| 0 <= i < r.0 ==> text::precedes(#[trigger] self@[i].0, key@),
            !r.1 ==> forall|i: int| r.0 <= i < self@.len() ==> text::precedes(key@, #[trigger] self@[i].0),
    {
        proof {
            use_type_invariant(self);
        }
        let mut i: usize = 0;
        while i < self.entries.len() && text::before(self.entries[i].0.as_str(), key)
            invariant
                i <= self.entries@.len(),
                ascending(self@),
                self@.len() == self.entries@.len(),
                forall|k: int| 0 <= k < self@.len() ==> #[trigger] self@[k].0 == self.entries@[k].0@,
                forall|k: int| 0 <= k < i ==> text::precedes(#[trigger] self@[k].0, key@),
            decreases self.entries@.len() - i,
        {
            i = i + 1;
        }
        let found = i < self.entries.len() && text::same(self.entries[i].0.as_str(), key);
        proof {
            text::lemma_precedes_irreflexive(key@);
            if found {
                assert(self@[i as int].0 == key@);
            } else {
                if i < self@.len() {
                    text::lemma_precedes_total(self@[i as int].0, key@);
                    assert forall|k: int| i <= k < self@.len() implies text::precedes(
                        key@,
                        #[trigger] self@[k].0,
                    ) by {
                        if k > i {
                            text::lemma_precedes_transitive(key@, self@[i as int].0, self@[k].0);
                        }
                    }
                }
                assert(!has_key(self@, key@));
            }
        }
        (i, found)
    }

    pub fn len(&self) -> (r: usize)
        ensures
            r == self@.len(),
            ascending(self@),
            self@ == row_of(self.dict()),
            self.dict().dom().finite(),
    {
        proof {
            use_type_invariant(self);
            assert(ascending(self@));
            lemma_row_is(self@);
        }
        self.entries.len()
    }

    pub fn is_empty(&self) -> (r: bool)
        ensures
            r == (self@.len() == 0),
    {
        self.entries.len() == 0
    }

    pub fn contains_key(&self, key: &str) -> (r: bool)
        ensures
            r == self.dict().dom().contains(key@),
    {
        self.place(key).1
    }

    pub fn get(&self, key: &str) -> (r: Option<&V>)
        ensures
            match r {
                Some(v) => self.dict().dom().contains(key@) && v@ == self.dict()[key@],
                None => !self.dict().dom().contains(key@),
            },
    {
        let (i, found) = self.place(key);
        if found {
            proof {
                lemma_entry(self@, i as int);
            }
            Some(&self.entries[i].1)
        } else {
            None
        }
    }

    /// The key that stands at `i`.
    pub fn key_at(&self, i: usize) -> (r: &String)
        requires
            i < self@.len(),
        ensures
            r@ == self@[i as int].0,
    {
        &self.entries[i].0
    }

    /// The value that stands at `i`.
    pub fn value_at(&self, i: usize) -> (r: &V)
        requires
            i < self@.len(),
        ensures
            r@ == self@[i as int].1,
    {
        &self.entries[i].1
    }

    /// Files `value` under `key`, in place of what stood there.
    pub fn insert(&mut self, key: String, value: V)
        ensures
            ascending(final(self)@),
            final(self).dict() == old(self).dict().insert(key@, value@),
    {
        let (i, found) = self.place(key.as_str());
        let ghost before = self@;
        let mut entries: Vec<(String, V)> = Vec::new();
        proof {
            use_type_invariant(&*self);
        }
        std::mem::swap(&mut entries, &mut self.entries);
        let ghost had = entries@;
        assert(before =~= had.map_values(|e: (String, V)| (e.0@, e.1@)));
        let ghost k = key@;
        let ghost v = value@;
        if found {
            let _ = entries.remove(i);
        }
        let ghost rest = entries@;
        entries.insert(i, (key, value));
        let ghost now = entries@.map_values(|e: (String, V)| (e.0@, e.1@));
        proof {
            assert forall|a: int, b: int| 0 <= a < b < now.len() implies text::precedes(
                (#[trigger] now[a]).0,
                (#[trigger] now[b]).0,
            ) by {
                let x = if found || a < i { a } else { a - 1 };
                let y = if found || b < i { b } else { b - 1 };
                if a != i {
                    assert(now[a] == before[x]);
                }
                if b != i {
                    assert(now[b] == before[y]);
                }
            }
            assert(ascending(now));
            assert(dict_of(now) =~= dict_of(before).insert(k, v)) by {
                assert forall|q: Seq<char>|
                    #![trigger has_key(now, q)]
                    has_key(now, q) == (q == k || has_key(before, q)) && (has_key(now, q)
                        ==> value_of(now, q) == if q == k { v } else { value_of(before, q) }) by {
                    assert(now[i as int] == (k, v));
                    if q == k {
                        lemma_entry(now, i as int);
                    } else {
                        if has_key(before, q) {
                            let a = choose|a: int| 0 <= a < before.len() && #[trigger] before[a].0 == q;
                            let x = if found || a < i { a } else { a + 1 };
                            assert(now[x] == before[a]);
                            lemma_entry(before, a);
                            lemma_entry(now, x);
                        }
                        if has_key(now, q) {
                            let a = choose|a: int| 0 <= a < now.len() && #[trigger] now[a].0 == q;
                            let x = if found || a < i { a } else { a - 1 };
                            assert(now[a] == before[x]);
                        }
                    }
                }
            }
            assert forall|a: int, b: int| 0 <= a < b < entries@.len() implies text::precedes(
                (#[trigger] entries@[a]).0@,
                (#[trigger] entries@[b]).0@,
            ) by {
                assert(now[a].0 == entries@[a].0@);
                assert(now[b].0 == entries@[b].0@);
            }
        }
        self.entries = entries;
        assert(self@ =~= now);
    }

    /// Takes out what stands under `key`.
    pub fn remove(&mut self, key: &str) -> (r: Option<V>)
        ensures
            ascending(final(self)@),
            final(self).dict() == old(self).dict().remove(key@),
            match r {
                Some(v) => old(self).dict().dom().contains(key@) && v@ == old(self).dict()[key@],
                None => !old(self).dict().dom().contains(key@) && final(self)@ == old(self)@,
            },
    {
        let (i, found) = self.place(key);
        if !found {
            assert(self.dict().remove(key@) =~= self.dict());
            return None;
        }
        let ghost before = self@;
        let mut entries: Vec<(String, V)> = Vec::new();
        proof {
            use_type_invariant(&*self);
        }
        std::mem::swap(&mut entries, &mut self.entries);
        assert(before =~= entries@.map_values(|e: (String, V)| (e.0@, e.1@)));
        let (_, value) = entries.remove(i);
        let ghost now = entries@.map_values(|e: (String, V)| (e.0@, e.1@));
        proof {
            lemma_entry(before, i as int);
            assert forall|a: int, b: int| 0 <= a < b < now.len() implies text::precedes(
                (#[trigger] now[a]).0,
                (#[trigger] now[b]).0,
            ) by {
                let x = if a < i { a } else { a + 1 };
                let y = if b < i { b } else { b + 1 };
                assert(now[a] == before[x]);
                assert(now[b] == before[y]);
            }
            assert(ascending(now));
            assert(dict_of(now) =~= dict_of(before).remove(key@)) by {
                assert forall|q: Seq<char>|
                    #![trigger has_key(now, q)]
                    has_key(now, q) == (q != key@ && has_key(before, q)) && (has_key(now, q)
                        ==> value_of(now, q) == value_of(before, q)) by {
                    if has_key(before, q) && q != key@ {
                        let a = choose|a: int| 0 <= a < before.len() && #[trigger] before[a].0 == q;
                        let x = if a < i { a } else { a - 1 };
                        assert(now[x] == before[a]);
                        lemma_entry(before, a);
                        lemma_entry(now, x);
                    }
                    if has_key(now, q) {
                        let a = choose|a: int| 0 <= a < now.len() && #[trigger] now[a].0 == q;
                        let x = if a < i { a } else { a + 1 };
                        assert(now[a] == before[x]);
                        text::lemma_precedes_irreflexive(q);
                        assert(text::precedes(before[i as int].0, before[x].0) || text::precedes(
                            before[x].0,
                            before[i as int].0,
                        ));
                    }
                }
            }
            assert forall|a: int, b: int| 0 <= a < b < entries@.len() implies text::precedes(
                (#[trigger] entries@[a]).0@,
                (#[trigger] entries@[b]).0@,
            ) by {
                assert(now[a].0 == entries@[a].0@);
                assert(now[b].0 == entries@[b].0@);
            }
        }
        self.entries = entries;
        assert(self@ =~= now);
        Some(value)
    }
}

impl<V: View + Clone> Clone for Table<V> {
    /// The same keys, each with a clone of its value.
    fn clone(&self) -> (r: Self)
        ensures
            r@.len() == self@.len(),
            forall|i: int| 0 <= i < self@.len() ==> #[trigger] r@[i].0 == self@[i].0,
    {
        proof {
            use_type_invariant(self);
        }
        let mut entries: Vec<(String, V)> = Vec::new();
        let mut i: usize = 0;
        while i < self.entries.len()
            invariant
                i <= self.entries@.len(),
                entries@.len() == i,
                forall|k: int| 0 <= k < i ==> (#[trigger] entries@[k]).0@ == self.entries@[k].0@,
            decreases self.entries@.len() - i,
        {
            entries.push((self.entries[i].0.clone(), self.entries[i].1.clone()));
            i = i + 1;
        }
        Table { entries }
    }
}

impl Table<String> {
    /// The same texts under the same keys.
    pub fn copied(&self) -> (r: Self)
        ensures
            r@ == self@,
    {
        proof {
            use_type_invariant(self);
        }
        let mut entries: Vec<(String, String)> = Vec::new();
        let mut i: usize = 0;
        while i < self.entries.len()
            invariant
                i <= self.entries@.len(),
                entries@.len() == i,
                forall|k: int|
                    0 <= k < i ==> (#[trigger] entries@[k]).0@ == self.entries@[k].0@
                        && entries@[k].1@ == self.entries@[k].1@,
            decreases self.entries@.len() - i,
        {
            entries.push((self.entries[i].0.clone(), self.entries[i].1.clone()));
            i = i + 1;
        }
        let r = Table { entries };
        assert(r@ =~= self@);
        r
    }
}

impl<V: View> Default for Table<V> {
    fn default() -> (r: Self)
        ensures
            r@ == Seq::<(Seq<char>, V::V)>::empty(),
            r.dict() == Map::<Seq<char>, V::V>::empty(),
    {
        Table::new()
    }
}

} // verus!
