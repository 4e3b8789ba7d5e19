//! Strings as sequences of characters: comparing, cutting and joining them.

use vstd::prelude::*;
use vstd::string::*;

verus! {

broadcast use vstd::string::group_string_axioms;

/// Appends one character, as `String::push` documents.
pub assume_specification[ String::push ](s: &mut String, ch: char)
    ensures
        final(s)@ == old(s)@.push(ch),
;

/// The characters of a string, in order.
pub fn chars_of(s: &str) -> (r: Vec<char>)
    ensures
        r@ == s@,
{
    let mut r: Vec<char> = Vec::new();
    for c in it: s.chars()
        invariant
            r@ == it.seq().take(it.index() as int),
            it.seq() == s@,
    {
        r.push(c);
    }
    r
}

/// The string that holds the characters `from .. to` of `chars`.
pub fn string_of(chars: &Vec<char>, from: usize, to: usize) -> (r: String)
    requires
        from <= to <= chars@.len(),
    ensures
        r@ == chars@.subrange(from as int, to as int),
{
    let mut r = String::new();
    let mut i: usize = from;
    while i < to
        invariant
            from <= i <= to <= chars@.len(),
            r@ == chars@.subrange(from as int, i as int),
        decreases to - i,
    {
        r.push(chars[i]);
        i = i + 1;
        assert(r@ == chars@.subrange(from as int, i as int));
    }
    r
}

// ---------------------------------------------------------------------------
// comparing
// ---------------------------------------------------------------------------

/// The order of strings: by the first character in which they differ, and the shorter
/// one first where there is none.
pub open spec fn precedes(a: Seq<char>, b: Seq<char>) -> bool
    decreases a.len(),
{
    if b.len() == 0 {
        false
    } else if a.len() == 0 {
        true
    } else if a[0] != b[0] {
        a[0] < b[0]
    } else {
        precedes(a.drop_first(), b.drop_first())
    }
}

pub proof fn lemma_precedes_irreflexive(a: Seq<char>)
    ensures
        !precedes(a, a),
    decreases a.len(),
{
    if a.len() > 0 {
        lemma_precedes_irreflexive(a.drop_first());
    }
}

pub proof fn lemma_precedes_transitive(a: Seq<char>, b: Seq<char>, c: Seq<char>)
    requires
        precedes(a, b),
        precedes(b, c),
    ensures
        precedes(a, c),
    decreases a.len(),
{
    if a.len() > 0 && b.len() > 0 && c.len() > 0 && a[0] == b[0] && b[0] == c[0] {
        lemma_precedes_transitive(a.drop_first(), b.drop_first(), c.drop_first());
    }
}

pub proof fn lemma_precedes_total(a: Seq<char>, b: Seq<char>)
    ensures
        a == b || precedes(a, b) || precedes(b, a),
    decreases a.len(),
{
    if a.len() == 0 && b.len() == 0 {
        assert(a =~= b);
    } else if a.len() > 0 && b.len() > 0 && a[0] == b[0] {
        lemma_precedes_total(a.drop_first(), b.drop_first());
        if a.drop_first() == b.drop_first() {
            assert(a =~= seq![a[0]] + a.drop_first());
            assert(b =~= seq![b[0]] + b.drop_first());
        }
    }
}

pub proof fn lemma_precedes_asymmetric(a: Seq<char>, b: Seq<char>)
    requires
        precedes(a, b),
    ensures
        a != b,
        !precedes(b, a),
{
    lemma_precedes_irreflexive(a);
    if precedes(b, a) {
        lemma_precedes_transitive(a, b, a);
    }
}

/// Are these the same text?
pub fn same(a: &str, b: &str) -> (r: bool)
    ensures
        r == (a@ == b@),
{
    let x = chars_of(a);
    let y = chars_of(b);
    if x.len() != y.len() {
        return false;
    }
    let mut i: usize = 0;
    while i < x.len()
        invariant
            i <= x@.len(),
            x@.len() == y@.len(),
            x@ == a@,
            y@ == b@,
            forall|k: int| 0 <= k < i ==> x@[k] == y@[k],
        decreases x@.len() - i,
    {
        if x[i] != y[i] {
            return false;
        }
        i = i + 1;
    }
    assert(a@ =~= b@);
    true
}

/// Does `a` come before `b`?
pub fn before(a: &str, b: &str) -> (r: bool)
    ensures
        r == precedes(a@, b@),
{
    let x = chars_of(a);
    let y = chars_of(b);
    let mut i: usize = 0;
    proof {
        assert(x@.skip(0) =~= a@);
        assert(y@.skip(0) =~= b@);
    }
    while i < x.len() && i < y.len() && x[i] == y[i]
        invariant
            i <= x@.len(),
            i <= y@.len(),
            precedes(x@.skip(i as int), y@.skip(i as int)) == precedes(a@, b@),
        decreases x@.len() - i,
    {
        assert(x@.skip(i as int).drop_first() =~= x@.skip(i as int + 1));
        assert(y@.skip(i as int).drop_first() =~= y@.skip(i as int + 1));
        i = i + 1;
    }
    if i >= y.len() {
        false
    } else if i >= x.len() {
        true
    } else {
        x[i] < y[i]
    }
}

// ---------------------------------------------------------------------------
// finding
// ---------------------------------------------------------------------------

/// Where `part` first stands in `s`, looking from `k` on.
pub open spec fn find_from(s: Seq<char>, part: Seq<char>, k: int) -> Option<int>
    decreases s.len() - k + 1,
{
    if k < 0 || k + part.len() > s.len() {
        None
    } else if s.subrange(k, k + part.len()) == part {
        Some(k)
    } else {
        find_from(s, part, k + 1)
    }
}

pub open spec fn holds(s: Seq<char>, part: Seq<char>) -> bool {
    find_from(s, part, 0) is Some
}

/// A place that `find_from` names holds the part, and no earlier one does.
pub proof fn lemma_find_from(s: Seq<char>, part: Seq<char>, k: int)
    requires
        0 <= k,
    ensures
        match find_from(s, part, k) {
            Some(i) => {
                &&& k <= i
                &&& i + part.len() <= s.len()
                &&& s.subrange(i, i + part.len()) == part
                &&& forall|j: int|
                    k <= j < i ==> #[trigger] s.subrange(j, j + part.len()) != part
            },
            None => forall|j: int|
                k <= j && j + part.len() <= s.len() ==> #[trigger] s.subrange(j, j + part.len())
                    != part,
        },
    decreases s.len() - k + 1,
{
    if k + part.len() <= s.len() && s.subrange(k, k + part.len()) != part {
        lemma_find_from(s, part, k + 1);
    }
}

/// Does `part` stand in `chars` at `at`?
fn stands_at(chars: &Vec<char>, part: &Vec<char>, at: usize) -> (r: bool)
    requires
        at + part@.len() <= chars@.len(),
    ensures
        r == (chars@.subrange(at as int, at + part@.len()) == part@),
{
    let size = chars.len();
    let mut i: usize = 0;
    while i < part.len()
        invariant
            i <= part@.len(),
            at + part@.len() <= chars@.len(),
            size == chars@.len(),
            forall|k: int| 0 <= k < i ==> chars@[at + k] == part@[k],
        decreases part@.len() - i,
    {
        if chars[at + i] != part[i] {
            assert(chars@.subrange(at as int, at + part@.len())[i as int] != part@[i as int]);
            return false;
        }
        i = i + 1;
    }
    assert(chars@.subrange(at as int, at + part@.len()) =~= part@);
    true
}

/// The first place, counted in characters, at which `part` stands in `s`.
pub fn find(s: &str, part: &str) -> (r: Option<usize>)
    ensures
        match r {
            Some(i) => find_from(s@, part@, 0) == Some(i as int),
            None => find_from(s@, part@, 0) is None,
        },
{
    let x = chars_of(s);
    let y = chars_of(part);
    if y.len() > x.len() {
        return None;
    }
    let last = x.len() - y.len();
    let mut i: usize = 0;
    while i <= last
        invariant
            i <= last + 1,
            last + y@.len() == x@.len(),
            x@ == s@,
            y@ == part@,
            find_from(s@, part@, 0) == find_from(s@, part@, i as int),
        decreases last + 1 - i,
    {
        if stands_at(&x, &y, i) {
            return Some(i);
        }
        if i == last {
            assert(find_from(s@, part@, i as int + 1) is None);
            return None;
        }
        i = i + 1;
    }
    None
}

pub fn contains(s: &str, part: &str) -> (r: bool)
    ensures
        r == holds(s@, part@),
{
    find(s, part).is_some()
}

pub open spec fn begins(s: Seq<char>, part: Seq<char>) -> bool {
    part.len() <= s.len() && s.take(part.len() as int) == part
}

pub fn starts_with(s: &str, part: &str) -> (r: bool)
    ensures
        r == begins(s@, part@),
{
    let x = chars_of(s);
    let y = chars_of(part);
    if y.len() > x.len() {
        return false;
    }
    assert(x@.subrange(0, y@.len() as int) =~= x@.take(y@.len() as int));
    stands_at(&x, &y, 0)
}

pub open spec fn ends(s: Seq<char>, part: Seq<char>) -> bool {
    part.len() <= s.len() && s.skip(s.len() - part.len()) == part
}

pub fn ends_with(s: &str, part: &str) -> (r: bool)
    ensures
        r == ends(s@, part@),
{
    let x = chars_of(s);
    let y = chars_of(part);
    if y.len() > x.len() {
        return false;
    }
    assert(x@.subrange(x@.len() - y@.len(), x@.len() as int) =~= x@.skip(x@.len() - y@.len()));
    stands_at(&x, &y, x.len() - y.len())
}

/// The part of `s` between two places, both counted in characters.
pub fn slice(s: &str, from: usize, to: usize) -> (r: &str)
    requires
        from <= to <= s@.len(),
    ensures
        r@ == s@.subrange(from as int, to as int),
{
    s.substring_char(from, to)
}

/// What stands behind `part` where `s` begins with it.
pub fn strip_prefix<'a>(s: &'a str, part: &str) -> (r: Option<&'a str>)
    ensures
        match r {
            Some(rest) => begins(s@, part@) && rest@ == s@.skip(part@.len() as int),
            None => !begins(s@, part@),
        },
{
    if starts_with(s, part) {
        let rest = slice(s, part.unicode_len(), s.unicode_len());
        assert(rest@ =~= s@.skip(part@.len() as int));
        Some(rest)
    } else {
        None
    }
}

/// The place of the first `c` in `s`, or the length of `s` where there is none.
pub open spec fn place_of(s: Seq<char>, c: char) -> int
    decreases s.len(),
{
    if s.len() == 0 || s[0] == c {
        0
    } else {
        1 + place_of(s.drop_first(), c)
    }
}

pub proof fn lemma_place_of(s: Seq<char>, c: char)
    ensures
        0 <= place_of(s, c) <= s.len(),
        place_of(s, c) < s.len() ==> s[place_of(s, c)] == c,
        forall|i: int| 0 <= i < place_of(s, c) ==> s[i] != c,
    decreases s.len(),
{
    if s.len() > 0 && s[0] != c {
        let rest = s.drop_first();
        lemma_place_of(rest, c);
        assert forall|i: int| 0 <= i < place_of(s, c) implies s[i] != c by {
            if i > 0 {
                assert(rest[i - 1] == s[i]);
            }
        }
    }
}

pub proof fn lemma_place_is(s: Seq<char>, c: char, k: int)
    requires
        0 <= k <= s.len(),
        k < s.len() ==> s[k] == c,
        forall|i: int| 0 <= i < k ==> s[i] != c,
    ensures
        place_of(s, c) == k,
{
    lemma_place_of(s, c);
}

/// The first `c` in `chars` at `from` or behind it, or the length of `chars`.
fn next_place(chars: &Vec<char>, c: char, from: usize) -> (r: usize)
    requires
        from <= chars@.len(),
    ensures
        from <= r <= chars@.len(),
        r - from == place_of(chars@.skip(from as int), c),
{
    let mut i: usize = from;
    while i < chars.len() && chars[i] != c
        invariant
            from <= i <= chars@.len(),
            forall|k: int| from <= k < i ==> chars@[k] != c,
        decreases chars@.len() - i,
    {
        i = i + 1;
    }
    proof {
        lemma_place_is(chars@.skip(from as int), c, i - from);
    }
    i
}

/// The text before the first `c` and the text behind it.
pub fn split_once<'a>(s: &'a str, c: char) -> (r: Option<(&'a str, &'a str)>)
    ensures
        match r {
            Some((before, behind)) => {
                let k = place_of(s@, c);
                k < s@.len() && before@ == s@.take(k) && behind@ == s@.skip(k + 1)
            },
            None => place_of(s@, c) == s@.len(),
        },
{
    let x = chars_of(s);
    assert(x@.skip(0) =~= s@);
    let k = next_place(&x, c, 0);
    if k == x.len() {
        return None;
    }
    let before = slice(s, 0, k);
    let behind = slice(s, k + 1, x.len());
    assert(before@ =~= s@.take(k as int));
    assert(behind@ =~= s@.skip(k as int + 1));
    Some((before, behind))
}

/// The place of the last `c` in `s`, or -1 where there is none.
pub open spec fn last_place_of(s: Seq<char>, c: char) -> int
    decreases s.len(),
{
    if s.len() == 0 {
        -1
    } else if s.last() == c {
        s.len() - 1
    } else {
        last_place_of(s.drop_last(), c)
    }
}

pub proof fn lemma_last_place_of(s: Seq<char>, c: char)
    ensures
        -1 <= last_place_of(s, c) < s.len(),
        last_place_of(s, c) >= 0 ==> s[last_place_of(s, c)] == c,
    decreases s.len(),
{
    if s.len() > 0 && s.last() != c {
        lemma_last_place_of(s.drop_last(), c);
    }
}

pub proof fn lemma_last_place_is(s: Seq<char>, c: char, k: int)
    requires
        0 <= k < s.len(),
        s[k] == c,
        forall|i: int| k < i < s.len() ==> #[trigger] s[i] != c,
    ensures
        last_place_of(s, c) == k,
    decreases s.len(),
{
    if k < s.len() - 1 {
        assert(s.last() != c);
        lemma_last_place_is(s.drop_last(), c, k);
    }
}

/// The last `c` in `s`.
pub fn find_last(s: &str, c: char) -> (r: Option<usize>)
    ensures
        match r {
            Some(i) => last_place_of(s@, c) == i,
            None => last_place_of(s@, c) == -1,
        },
{
    let x = chars_of(s);
    let mut i: usize = x.len();
    assert(x@.take(i as int) =~= s@);
    while i > 0
        invariant
            i <= x@.len(),
            last_place_of(x@.take(i as int), c) == last_place_of(s@, c),
        decreases i,
    {
        assert(x@.take(i as int).drop_last() =~= x@.take(i as int - 1));
        if x[i - 1] == c {
            return Some(i - 1);
        }
        i = i - 1;
    }
    None
}

/// The first `c` in `s`.
pub fn find_first(s: &str, c: char) -> (r: Option<usize>)
    ensures
        match r {
            Some(i) => place_of(s@, c) == i && i < s@.len(),
            None => place_of(s@, c) == s@.len(),
        },
{
    let x = chars_of(s);
    assert(x@.skip(0) =~= s@);
    let k = next_place(&x, c, 0);
    if k == x.len() {
        None
    } else {
        Some(k)
    }
}

/// A letter of the Latin alphabet in lower case; anything else as it is.
pub open spec fn fold_case(c: char) -> char {
    if 'A' <= c <= 'Z' {
        (c as u32 + 32) as char
    } else {
        c
    }
}

pub open spec fn folded(s: Seq<char>) -> Seq<char> {
    s.map_values(|c: char| fold_case(c))
}

fn fold(c: char) -> (r: char)
    ensures
        r == fold_case(c),
{
    if 'A' <= c && c <= 'Z' {
        ((c as u32 + 32) as u8) as char
    } else {
        c
    }
}

/// Are these the same, but for the case of Latin letters?
pub fn same_folded(a: &str, b: &str) -> (r: bool)
    ensures
        r == (folded(a@) == folded(b@)),
{
    let x = chars_of(a);
    let y = chars_of(b);
    if x.len() != y.len() {
        assert(folded(a@).len() == a@.len());
        assert(folded(b@).len() == b@.len());
        return false;
    }
    let mut i: usize = 0;
    while i < x.len()
        invariant
            i <= x@.len(),
            x@.len() == y@.len(),
            x@ == a@,
            y@ == b@,
            forall|k: int| 0 <= k < i ==> fold_case(#[trigger] x@[k]) == fold_case(y@[k]),
        decreases x@.len() - i,
    {
        if fold(x[i]) != fold(y[i]) {
            assert(folded(a@)[i as int] != folded(b@)[i as int]);
            return false;
        }
        i = i + 1;
    }
    assert(folded(a@) =~= folded(b@));
    true
}

// ---------------------------------------------------------------------------
// cutting
// ---------------------------------------------------------------------------

/// What a list of strings holds.
pub open spec fn texts(v: Seq<String>) -> Seq<Seq<char>> {
    v.map_values(|s: String| s@)
}

/// The pieces of `s` between its `c`s: one more than there are `c`s.
pub open spec fn pieces(s: Seq<char>, c: char) -> Seq<Seq<char>>
    decreases s.len(),
{
    let k = place_of(s, c);
    if 0 <= k < s.len() {
        seq![s.take(k)] + pieces(s.skip(k + 1), c)
    } else {
        seq![s]
    }
}

pub fn split(s: &str, c: char) -> (r: Vec<String>)
    ensures
        texts(r@) == pieces(s@, c),
{
    let x = chars_of(s);
    let mut r: Vec<String> = Vec::new();
    let mut from: usize = 0;
    proof {
        assert(x@.skip(0) =~= s@);
        assert(texts(r@) + pieces(s@, c) =~= pieces(s@, c));
    }
    loop
        invariant
            from <= x@.len(),
            x@ == s@,
            texts(r@) + pieces(x@.skip(from as int), c) == pieces(s@, c),
        decreases x@.len() - from,
    {
        let k = next_place(&x, c, from);
        let ghost rest = x@.skip(from as int);
        let ghost had = texts(r@);
        let piece = string_of(&x, from, k);
        proof {
            assert(piece@ =~= rest.take(k - from));
            assert(texts(r@.push(piece)) =~= had.push(piece@));
        }
        r.push(piece);
        if k == x.len() {
            proof {
                assert(rest.take(k - from) =~= rest);
                assert(had.push(rest) =~= had + seq![rest]);
            }
            return r;
        }
        proof {
            assert(rest.skip(k - from + 1) =~= x@.skip(k as int + 1));
            assert(had.push(rest.take(k - from)) + pieces(x@.skip(k as int + 1), c)
                =~= had + (seq![rest.take(k - from)] + pieces(x@.skip(k as int + 1), c)));
        }
        from = k + 1;
    }
}

/// A line without the carriage return that may end it.
pub open spec fn without_return(s: Seq<char>) -> Seq<char> {
    if s.len() > 0 && s.last() == '\r' {
        s.drop_last()
    } else {
        s
    }
}

/// The lines of a text, each without its line break. An empty last line is none.
pub open spec fn lines_of(s: Seq<char>) -> Seq<Seq<char>>
    decreases s.len(),
{
    let k = place_of(s, '\n');
    if s.len() == 0 {
        Seq::empty()
    } else if 0 <= k < s.len() {
        seq![without_return(s.take(k))] + lines_of(s.skip(k + 1))
    } else {
        seq![s]
    }
}

pub fn lines(s: &str) -> (r: Vec<String>)
    ensures
        texts(r@) == lines_of(s@),
{
    let x = chars_of(s);
    let mut r: Vec<String> = Vec::new();
    let mut from: usize = 0;
    proof {
        assert(x@.skip(0) =~= s@);
        assert(texts(r@) + lines_of(s@) =~= lines_of(s@));
    }
    while from < x.len()
        invariant
            from <= x@.len(),
            x@ == s@,
            texts(r@) + lines_of(x@.skip(from as int)) == lines_of(s@),
        decreases x@.len() - from,
    {
        let k = next_place(&x, '\n', from);
        let ghost rest = x@.skip(from as int);
        let ghost had = texts(r@);
        if k == x.len() {
            let line = string_of(&x, from, k);
            proof {
                assert(line@ =~= rest);
                assert(texts(r@.push(line)) =~= had.push(line@));
                assert(had.push(rest) =~= had + seq![rest]);
            }
            r.push(line);
            return r;
        }
        let to: usize = if k > from && x[k - 1] == '\r' { k - 1 } else { k };
        let line = string_of(&x, from, to);
        proof {
            assert(line@ =~= without_return(rest.take(k - from)));
            assert(texts(r@.push(line)) =~= had.push(line@));
            assert(rest.skip(k - from + 1) =~= x@.skip(k as int + 1));
            assert(had.push(line@) + lines_of(x@.skip(k as int + 1))
                =~= had + (seq![line@] + lines_of(x@.skip(k as int + 1))));
        }
        r.push(line);
        from = k + 1;
    }
    proof {
        assert(x@.skip(from as int) =~= Seq::<char>::empty());
        assert(texts(r@) + Seq::<Seq<char>>::empty() =~= texts(r@));
    }
    r
}

/// White space, as Unicode's `White_Space` property has it.
pub open spec fn is_space(c: char) -> bool {
    ||| 0x9 <= c as u32 <= 0xd
    ||| c as u32 == 0x20
    ||| c as u32 == 0x85
    ||| c as u32 == 0xa0
    ||| c as u32 == 0x1680
    ||| 0x2000 <= c as u32 <= 0x200a
    ||| c as u32 == 0x2028
    ||| c as u32 == 0x2029
    ||| c as u32 == 0x202f
    ||| c as u32 == 0x205f
    ||| c as u32 == 0x3000
}

pub fn space(c: char) -> (r: bool)
    ensures
        r == is_space(c),
{
    let n = c as u32;
    (0x9 <= n && n <= 0xd) || n == 0x20 || n == 0x85 || n == 0xa0 || n == 0x1680 || (0x2000 <= n
        && n <= 0x200a) || n == 0x2028 || n == 0x2029 || n == 0x202f || n == 0x205f || n == 0x3000
}

/// `s` without the white space that it begins with.
pub open spec fn trim_start_of(s: Seq<char>) -> Seq<char>
    decreases s.len(),
{
    if s.len() > 0 && is_space(s[0]) {
        trim_start_of(s.drop_first())
    } else {
        s
    }
}

/// `s` without the white space that it ends in.
pub open spec fn trim_end_of(s: Seq<char>) -> Seq<char>
    decreases s.len(),
{
    if s.len() > 0 && is_space(s.last()) {
        trim_end_of(s.drop_last())
    } else {
        s
    }
}

pub open spec fn trim_of(s: Seq<char>) -> Seq<char> {
    trim_end_of(trim_start_of(s))
}

/// The first place at `from` or behind it that holds no white space.
fn skip_space(chars: &Vec<char>, from: usize) -> (r: usize)
    requires
        from <= chars@.len(),
    ensures
        from <= r <= chars@.len(),
        trim_start_of(chars@.skip(from as int)) == chars@.skip(r as int),
        r < chars@.len() ==> !is_space(chars@[r as int]),
{
    let mut i: usize = from;
    while i < chars.len() && space(chars[i])
        invariant
            from <= i <= chars@.len(),
            trim_start_of(chars@.skip(from as int)) == trim_start_of(chars@.skip(i as int)),
        decreases chars@.len() - i,
    {
        assert(chars@.skip(i as int).drop_first() =~= chars@.skip(i as int + 1));
        i = i + 1;
    }
    i
}

pub fn trim_start(s: &str) -> (r: &str)
    ensures
        r@ == trim_start_of(s@),
{
    let x = chars_of(s);
    let k = skip_space(&x, 0);
    let r = slice(s, k, x.len());
    assert(x@.skip(0) =~= s@);
    assert(r@ =~= x@.skip(k as int));
    r
}

pub fn trim_end(s: &str) -> (r: &str)
    ensures
        r@ == trim_end_of(s@),
{
    let x = chars_of(s);
    let mut k: usize = x.len();
    assert(x@.take(k as int) =~= s@);
    while k > 0 && space(x[k - 1])
        invariant
            k <= x@.len(),
            trim_end_of(x@.take(k as int)) == trim_end_of(s@),
        decreases k,
    {
        assert(x@.take(k as int).drop_last() =~= x@.take(k as int - 1));
        k = k - 1;
    }
    let r = slice(s, 0, k);
    assert(r@ =~= x@.take(k as int));
    r
}

pub fn trim(s: &str) -> (r: &str)
    ensures
        r@ == trim_of(s@),
{
    trim_end(trim_start(s))
}

/// How many characters stand before the first white space.
pub open spec fn word_len(s: Seq<char>) -> int
    decreases s.len(),
{
    if s.len() == 0 || is_space(s[0]) {
        0
    } else {
        1 + word_len(s.drop_first())
    }
}

pub proof fn lemma_word_len(s: Seq<char>)
    ensures
        0 <= word_len(s) <= s.len(),
        forall|i: int| 0 <= i < word_len(s) ==> !is_space(#[trigger] s[i]),
        word_len(s) < s.len() ==> is_space(s[word_len(s)]),
    decreases s.len(),
{
    if s.len() > 0 && !is_space(s[0]) {
        let rest = s.drop_first();
        lemma_word_len(rest);
        assert forall|i: int| 0 <= i < word_len(s) implies !is_space(#[trigger] s[i]) by {
            if i > 0 {
                assert(rest[i - 1] == s[i]);
            }
        }
    }
}

pub proof fn lemma_trim_start_len(s: Seq<char>)
    ensures
        trim_start_of(s).len() <= s.len(),
        trim_start_of(s).len() > 0 ==> !is_space(trim_start_of(s)[0]),
    decreases s.len(),
{
    if s.len() > 0 && is_space(s[0]) {
        lemma_trim_start_len(s.drop_first());
    }
}

/// The words of a text: what its white space parts.
pub open spec fn words_of(s: Seq<char>) -> Seq<Seq<char>>
    decreases s.len(),
    via words_of_decreases
{
    let t = trim_start_of(s);
    if t.len() == 0 {
        Seq::empty()
    } else {
        seq![t.take(word_len(t))] + words_of(t.skip(word_len(t)))
    }
}

#[via_fn]
proof fn words_of_decreases(s: Seq<char>) {
    lemma_trim_start_len(s);
    lemma_word_len(trim_start_of(s));
}

pub fn words(s: &str) -> (r: Vec<String>)
    ensures
        texts(r@) == words_of(s@),
{
    let x = chars_of(s);
    let mut r: Vec<String> = Vec::new();
    let mut from: usize = 0;
    proof {
        assert(x@.skip(0) =~= s@);
        assert(texts(r@) + words_of(s@) =~= words_of(s@));
    }
    loop
        invariant
            from <= x@.len(),
            x@ == s@,
            texts(r@) + words_of(x@.skip(from as int)) == words_of(s@),
        decreases x@.len() - from,
    {
        let start = skip_space(&x, from);
        let ghost had = texts(r@);
        let ghost t = x@.skip(start as int);
        if start == x.len() {
            proof {
                assert(had + Seq::<Seq<char>>::empty() =~= had);
            }
            return r;
        }
        let mut end: usize = start;
        assert(t.skip(0) =~= t);
        while end < x.len() && !space(x[end])
            invariant
                start <= end <= x@.len(),
                t == x@.skip(start as int),
                word_len(t) == end - start + word_len(x@.skip(end as int)),
            decreases x@.len() - end,
        {
            assert(x@.skip(end as int).drop_first() =~= x@.skip(end as int + 1));
            end = end + 1;
        }
        proof {
            lemma_word_len(t);
            assert(word_len(t) > 0);
        }
        let word = string_of(&x, start, end);
        proof {
            assert(word@ =~= t.take(word_len(t)));
            assert(t.skip(word_len(t)) =~= x@.skip(end as int));
            assert(texts(r@.push(word)) =~= had.push(word@));
            assert(had.push(word@) + words_of(x@.skip(end as int))
                =~= had + (seq![word@] + words_of(x@.skip(end as int))));
        }
        r.push(word);
        from = end;
    }
}

/// Adds a text to a list of them.
pub fn note(list: &mut Vec<String>, s: String)
    ensures
        texts(final(list)@) == texts(old(list)@).push(s@),
{
    let ghost before = list@;
    list.push(s);
    assert(texts(list@) =~= texts(before).push(s@));
}

/// No piece of a text holds the character that it is cut at.
pub proof fn lemma_pieces_lack(s: Seq<char>, c: char)
    ensures
        forall|i: int| 0 <= i < pieces(s, c).len() ==> lacks(#[trigger] pieces(s, c)[i], c),
    decreases s.len(),
{
    lemma_place_of(s, c);
    let k = place_of(s, c);
    if k < s.len() {
        lemma_pieces_lack(s.skip(k + 1), c);
        let rest = pieces(s.skip(k + 1), c);
        assert forall|i: int| 0 <= i < pieces(s, c).len() implies lacks(
            #[trigger] pieces(s, c)[i],
            c,
        ) by {
            if i > 0 {
                assert(pieces(s, c)[i] == rest[i - 1]);
            } else {
                assert(pieces(s, c)[0] == s.take(k));
            }
        }
    } else {
        assert(pieces(s, c)[0] == s);
    }
}

// ---------------------------------------------------------------------------
// numbers
// ---------------------------------------------------------------------------

pub open spec fn is_digit(c: char) -> bool {
    '0' <= c <= '9'
}

pub open spec fn digit_value(c: char) -> nat {
    (c as u32 - '0' as u32) as nat
}

pub open spec fn all_digits(s: Seq<char>) -> bool {
    forall|i: int| 0 <= i < s.len() ==> is_digit(#[trigger] s[i])
}

/// The number that a row of digits writes down.
pub open spec fn digits_value(s: Seq<char>) -> nat
    decreases s.len(),
{
    if s.len() == 0 {
        0
    } else {
        10 * digits_value(s.drop_last()) + digit_value(s.last())
    }
}

/// What a text says as a whole number of at most `most`: one sign `+` at most, then
/// digits and nothing else.
pub open spec fn number_of(s: Seq<char>, most: nat) -> Option<nat> {
    let d = if s.len() > 0 && s[0] == '+' { s.drop_first() } else { s };
    if d.len() > 0 && all_digits(d) && digits_value(d) <= most {
        Some(digits_value(d))
    } else {
        None
    }
}

proof fn lemma_digits_grow(s: Seq<char>, k: int)
    requires
        0 <= k <= s.len(),
    ensures
        digits_value(s.take(k)) <= digits_value(s),
    decreases s.len() - k,
{
    if k < s.len() {
        lemma_digits_grow(s, k + 1);
        assert(s.take(k + 1).drop_last() =~= s.take(k));
    } else {
        assert(s.take(k) =~= s);
    }
}

/// Reads a number of at most `most`.
pub fn number(s: &str, most: u64) -> (r: Option<u64>)
    ensures
        match r {
            Some(n) => number_of(s@, most as nat) == Some(n as nat),
            None => number_of(s@, most as nat) is None,
        },
{
    let x = chars_of(s);
    let from: usize = if x.len() > 0 && x[0] == '+' { 1 } else { 0 };
    let ghost d = if s@.len() > 0 && s@[0] == '+' { s@.drop_first() } else { s@ };
    assert(d =~= x@.skip(from as int));
    if from == x.len() {
        return None;
    }
    let mut value: u64 = 0;
    let mut i: usize = from;
    assert(d.take(0) =~= Seq::<char>::empty());
    while i < x.len()
        invariant
            from <= i <= x@.len(),
            d == x@.skip(from as int),
            forall|k: int| 0 <= k < i - from ==> is_digit(#[trigger] d[k]),
            value == digits_value(d.take(i - from)),
            value <= most,
            d == if s@.len() > 0 && s@[0] == '+' { s@.drop_first() } else { s@ },
        decreases x@.len() - i,
    {
        let c = x[i];
        assert(d[i - from] == c);
        if c < '0' || '9' < c {
            assert(!is_digit(d[i - from]));
            return None;
        }
        let digit = (c as u32 - '0' as u32) as u64;
        proof {
            assert(d.take(i - from + 1).drop_last() =~= d.take(i - from));
            assert(d.take(i - from + 1).last() == c);
            lemma_digits_grow(d, i - from + 1);
        }
        if value > most / 10 || value * 10 > most - digit.min(most) || digit > most {
            assert(10 * value + digit > most);
            return None;
        }
        value = value * 10 + digit;
        i = i + 1;
    }
    proof {
        assert(d.take(i - from) =~= d);
    }
    Some(value)
}

/// How many digits a text begins with.
pub open spec fn digits_at_start(s: Seq<char>) -> nat
    decreases s.len(),
{
    if s.len() > 0 && is_digit(s[0]) {
        1 + digits_at_start(s.drop_first())
    } else {
        0
    }
}

/// What keeps a text from being a number of at most `most`: there is nothing in it, its digits
/// already come to more, or something in it is no digit.
pub open spec fn number_fault_of(s: Seq<char>, most: nat) -> Seq<char> {
    let d = if s.len() > 0 && s[0] == '+' { s.drop_first() } else { s };
    if s.len() == 0 {
        "cannot parse integer from empty string"@
    } else if digits_value(d.take(digits_at_start(d) as int)) > most {
        "number too large to fit in target type"@
    } else {
        "invalid digit found in string"@
    }
}

/// Says what keeps a text from being a number of at most `most`.
pub fn number_fault(s: &str, most: u64) -> (r: String)
    ensures
        r@ == number_fault_of(s@, most as nat),
{
    let x = chars_of(s);
    if x.len() == 0 {
        return "cannot parse integer from empty string".to_owned();
    }
    let from: usize = if x[0] == '+' { 1 } else { 0 };
    let ghost d = if s@[0] == '+' { s@.drop_first() } else { s@ };
    assert(d =~= x@.skip(from as int));
    let mut i: usize = from;
    assert(d.skip(0) =~= d);
    while i < x.len() && '0' <= x[i] && x[i] <= '9'
        invariant
            from <= i <= x@.len(),
            d == x@.skip(from as int),
            forall|k: int| 0 <= k < i - from ==> is_digit(#[trigger] d[k]),
            digits_at_start(d) == i - from + digits_at_start(d.skip(i - from)),
        decreases x@.len() - i,
    {
        assert(d.skip(i - from)[0] == x@[i as int]);
        assert(d.skip(i - from).drop_first() =~= d.skip(i - from + 1));
        i = i + 1;
    }
    let run = slice(s, from, i);
    proof {
        if i < x@.len() {
            assert(d.skip(i - from)[0] == x@[i as int]);
        }
        assert(run@ =~= d.take(i - from));
        if run@.len() > 0 {
            assert(is_digit(d[0]));
            assert(run@[0] != '+');
            assert forall|k: int| 0 <= k < run@.len() implies is_digit(#[trigger] run@[k]) by {
                assert(run@[k] == d[k]);
            }
        }
    }
    if i > from && number(run, most).is_none() {
        "number too large to fit in target type".to_owned()
    } else {
        "invalid digit found in string".to_owned()
    }
}

pub open spec fn digit_char(n: nat) -> char {
    ('0' as u32 + n) as char
}

/// A number written in decimal, without leading zeros.
pub open spec fn decimal_of(n: nat) -> Seq<char>
    decreases n,
{
    if n < 10 {
        seq![digit_char(n)]
    } else {
        decimal_of(n / 10).push(digit_char(n % 10))
    }
}

pub fn decimal(n: u64) -> (r: String)
    ensures
        r@ == decimal_of(n as nat),
    decreases n,
{
    let digit = (48u8 + (n % 10) as u8) as char;
    assert(digit == digit_char((n % 10) as nat));
    if n < 10 {
        let mut r = String::new();
        r.push(digit);
        assert(r@ =~= seq![digit_char(n as nat)]);
        r
    } else {
        let mut r = decimal(n / 10);
        r.push(digit);
        r
    }
}

/// What a number is written as reads back as that number.
pub proof fn lemma_decimal_reads_back(n: nat)
    ensures
        decimal_of(n).len() > 0,
        all_digits(decimal_of(n)),
        digits_value(decimal_of(n)) == n,
        forall|most: nat| n <= most ==> #[trigger] number_of(decimal_of(n), most) == Some(n),
    decreases n,
{
    let s = decimal_of(n);
    if n < 10 {
        assert(s.drop_last() =~= Seq::<char>::empty());
        assert(digits_value(s.drop_last()) == 0);
    } else {
        lemma_decimal_reads_back(n / 10);
        assert(s.drop_last() =~= decimal_of(n / 10));
        assert forall|i: int| 0 <= i < s.len() implies is_digit(#[trigger] s[i]) by {
            if i < s.len() - 1 {
                assert(decimal_of(n / 10)[i] == s[i]);
            }
        }
    }
    assert(is_digit(s[0]));
}

/// A number that may be negative, in decimal.
pub open spec fn signed_of(n: int) -> Seq<char> {
    if n < 0 {
        "-"@ + decimal_of((-n) as nat)
    } else {
        decimal_of(n as nat)
    }
}

pub fn signed(n: i32) -> (r: String)
    ensures
        r@ == signed_of(n as int),
{
    if n < 0 {
        let mut r = String::from_str("-");
        r.append(decimal((-(n as i64)) as u64).as_str());
        r
    } else {
        decimal(n as u64)
    }
}

// ---------------------------------------------------------------------------
// joining
// ---------------------------------------------------------------------------

/// The parts one behind the other, with `between` between them.
pub open spec fn joined(parts: Seq<Seq<char>>, between: Seq<char>) -> Seq<char>
    decreases parts.len(),
{
    if parts.len() == 0 {
        Seq::empty()
    } else if parts.len() == 1 {
        parts[0]
    } else {
        joined(parts.drop_last(), between) + between + parts.last()
    }
}

pub fn join(parts: &[String], between: &str) -> (r: String)
    ensures
        r@ == joined(texts(parts@), between@),
{
    let mut r = String::new();
    let mut i: usize = 0;
    while i < parts.len()
        invariant
            i <= parts@.len(),
            r@ == joined(texts(parts@).take(i as int), between@),
        decreases parts@.len() - i,
    {
        if i > 0 {
            r.append(between);
        }
        r.append(parts[i].as_str());
        proof {
            let all = texts(parts@);
            assert(all.take(i as int + 1).drop_last() =~= all.take(i as int));
            assert(all.take(i as int + 1).last() == parts@[i as int]@);
            if i == 0 {
                assert(joined(all.take(0), between@) == Seq::<char>::empty());
                assert(r@ =~= all.take(1)[0]);
            }
        }
        i = i + 1;
    }
    assert(texts(parts@).take(i as int) =~= texts(parts@));
    r
}

/// A text in double quotes, with what `std` escapes there escaped.
pub uninterp spec fn quoted_of(s: Seq<char>) -> Seq<char>;

/// `format!("{:?}")` on a string: `std`'s `Debug`, which quotes the text and escapes
/// what its own tables of characters say. Only that one text always comes out the same
/// is claimed.
#[verifier::external_body]
pub(crate) fn quoted(s: &str) -> (r: String)
    ensures
        r@ == quoted_of(s@),
{
    format!("{s:?}")
}

/// A list of texts in square brackets, each quoted.
pub open spec fn list_of(parts: Seq<Seq<char>>) -> Seq<char> {
    "["@ + joined(parts.map_values(|p: Seq<char>| quoted_of(p)), ", "@) + "]"@
}

/// Writes a list down the way `std`'s `Debug` does on one line.
pub fn list(parts: &[String]) -> (r: String)
    ensures
        r@ == list_of(texts(parts@)),
{
    let mut all: Vec<String> = Vec::new();
    let mut i: usize = 0;
    while i < parts.len()
        invariant
            i <= parts@.len(),
            all@.len() == i,
            forall|k: int| 0 <= k < i ==> #[trigger] all@[k]@ == quoted_of(parts@[k]@),
        decreases parts@.len() - i,
    {
        all.push(quoted(parts[i].as_str()));
        i = i + 1;
    }
    assert(texts(all@) =~= texts(parts@).map_values(|p: Seq<char>| quoted_of(p)));
    let mut r = String::from_str("[");
    r.append(join(all.as_slice(), ", ").as_str());
    r.append("]");
    r
}

// ---------------------------------------------------------------------------
// lists
// ---------------------------------------------------------------------------

/// Is this text one of the list?
pub fn listed(list: &[String], s: &str) -> (r: bool)
    ensures
        r == texts(list@).contains(s@),
{
    let mut i: usize = 0;
    while i < list.len()
        invariant
            i <= list@.len(),
            forall|k: int| 0 <= k < i ==> #[trigger] list@[k]@ != s@,
        decreases list@.len() - i,
    {
        if same(list[i].as_str(), s) {
            assert(texts(list@)[i as int] == s@);
            return true;
        }
        i = i + 1;
    }
    assert forall|k: int| 0 <= k < list@.len() implies texts(list@)[k] != s@ by {
        assert(list@[k]@ != s@);
    }
    false
}

pub fn copied(list: &[String]) -> (r: Vec<String>)
    ensures
        texts(r@) == texts(list@),
{
    let mut r: Vec<String> = Vec::new();
    let mut i: usize = 0;
    while i < list.len()
        invariant
            i <= list@.len(),
            r@.len() == i,
            forall|k: int| 0 <= k < i ==> #[trigger] r@[k]@ == list@[k]@,
        decreases list@.len() - i,
    {
        r.push(list[i].clone());
        i = i + 1;
    }
    assert(texts(r@) =~= texts(list@));
    r
}

/// Is this list in order?
pub open spec fn in_order(parts: Seq<Seq<char>>) -> bool {
    forall|i: int, j: int| 0 <= i < j < parts.len() ==> !precedes(#[trigger] parts[j], #[trigger] parts[i])
}

/// The same texts, in order.
pub fn sorted(list: &[String]) -> (r: Vec<String>)
    ensures
        in_order(texts(r@)),
        texts(r@).to_multiset() == texts(list@).to_multiset(),
{
    let mut r: Vec<String> = Vec::new();
    let ghost all = texts(list@);
    let mut i: usize = 0;
    assert(all.take(0) =~= texts(r@));
    while i < list.len()
        invariant
            i <= list@.len(),
            all == texts(list@),
            in_order(texts(r@)),
            texts(r@).to_multiset() == all.take(i as int).to_multiset(),
        decreases list@.len() - i,
    {
        let item = list[i].clone();
        let ghost had = texts(r@);
        let mut p: usize = 0;
        while p < r.len() && !before(item.as_str(), r[p].as_str())
            invariant
                p <= r@.len(),
                had == texts(r@),
                forall|k: int| 0 <= k < p ==> !precedes(item@, #[trigger] had[k]),
            decreases r@.len() - p,
        {
            p = p + 1;
        }
        r.insert(p, item);
        proof {
            let now = texts(r@);
            assert(now =~= had.insert(p as int, item@));
            vstd::seq_lib::to_multiset_insert(had, p as int, item@);
            assert(all.take(i as int + 1) =~= all.take(i as int).push(item@));
            vstd::seq_lib::to_multiset_build(all.take(i as int), item@);
            assert forall|a: int, b: int| 0 <= a < b < now.len() implies !precedes(
                #[trigger] now[b],
                #[trigger] now[a],
            ) by {
                let x = if a < p { a } else { a - 1 };
                let y = if b < p { b } else { b - 1 };
                if a != p && b != p {
                    assert(now[a] == had[x] && now[b] == had[y]);
                } else if b == p {
                    assert(now[a] == had[a]);
                } else {
                    assert(now[b] == had[y]);
                    assert(precedes(item@, had[p as int]));
                    if precedes(had[y], item@) {
                        lemma_precedes_transitive(had[y], item@, had[p as int]);
                        if y > p {
                            assert(!precedes(had[y], had[p as int]));
                        } else {
                            lemma_precedes_irreflexive(had[y]);
                        }
                    }
                }
            }
        }
        i = i + 1;
    }
    assert(all.take(i as int) =~= all);
    r
}

// ---------------------------------------------------------------------------
// cutting what was joined
// ---------------------------------------------------------------------------

/// A text without white space in it.
pub open spec fn no_space(s: Seq<char>) -> bool {
    forall|i: int| 0 <= i < s.len() ==> !is_space(#[trigger] s[i])
}

proof fn lemma_word_len_is(s: Seq<char>, k: int)
    requires
        0 <= k <= s.len(),
        no_space(s.take(k)),
        k < s.len() ==> is_space(s[k]),
    ensures
        word_len(s) == k,
{
    lemma_word_len(s);
    if word_len(s) < k {
        assert(s.take(k)[word_len(s)] == s[word_len(s)]);
    }
}

/// A word, white space and the rest: the word, and the words of the rest.
pub proof fn lemma_words_head(word: Seq<char>, rest: Seq<char>)
    requires
        word.len() > 0,
        no_space(word),
        rest.len() > 0 ==> is_space(rest[0]),
    ensures
        words_of(word + rest) == seq![word] + words_of(rest),
{
    let s = word + rest;
    assert(!is_space(s[0])) by {
        assert(s[0] == word[0]);
    }
    assert(trim_start_of(s) == s);
    assert(s.take(word.len() as int) =~= word);
    assert(s.skip(word.len() as int) =~= rest);
    lemma_word_len_is(s, word.len() as int);
}

/// White space before a text makes no word.
pub proof fn lemma_words_skip(c: char, rest: Seq<char>)
    requires
        is_space(c),
    ensures
        words_of(seq![c] + rest) == words_of(rest),
{
    let s = seq![c] + rest;
    assert(s.drop_first() =~= rest);
    assert(trim_start_of(s) == trim_start_of(rest));
}

/// A text without a `c` in it.
pub open spec fn lacks(s: Seq<char>, c: char) -> bool {
    forall|i: int| 0 <= i < s.len() ==> #[trigger] s[i] != c
}

/// The pieces of a text that ends in a `c` and one piece more.
pub proof fn lemma_pieces_last(s: Seq<char>, c: char, last: Seq<char>)
    requires
        lacks(last, c),
    ensures
        pieces(s + seq![c] + last, c) == pieces(s, c) + seq![last],
    decreases s.len(),
{
    let all = s + seq![c] + last;
    let k = place_of(s, c);
    lemma_place_of(s, c);
    assert forall|i: int| 0 <= i < k implies all[i] != c by {
        assert(all[i] == s[i]);
    }
    if k < s.len() {
        assert(all[k] == s[k]);
        lemma_place_is(all, c, k);
        lemma_pieces_last(s.skip(k + 1), c, last);
        assert(all.skip(k + 1) =~= s.skip(k + 1) + seq![c] + last);
        assert(all.take(k) =~= s.take(k));
        assert(seq![s.take(k)] + (pieces(s.skip(k + 1), c) + seq![last]) =~= seq![s.take(k)]
            + pieces(s.skip(k + 1), c) + seq![last]);
    } else {
        assert(all[k] == c);
        lemma_place_is(all, c, k);
        assert(all.take(k) =~= s);
        assert(all.skip(k + 1) =~= last);
        lemma_place_is(last, c, last.len() as int);
        assert(pieces(last, c) == seq![last]);
    }
}

/// Parts that lack a `c`, joined by it, are its pieces again.
pub proof fn lemma_pieces_of_joined(parts: Seq<Seq<char>>, c: char, between: Seq<char>)
    requires
        between == seq![c],
        parts.len() > 0,
        forall|i: int| 0 <= i < parts.len() ==> lacks(#[trigger] parts[i], c),
    ensures
        pieces(joined(parts, between), c) == parts,
    decreases parts.len(),
{
    if parts.len() == 1 {
        lemma_place_is(parts[0], c, parts[0].len() as int);
        assert(parts =~= seq![parts[0]]);
    } else {
        let less = parts.drop_last();
        lemma_pieces_of_joined(less, c, between);
        assert(lacks(parts.last(), c));
        lemma_pieces_last(joined(less, between), c, parts.last());
        assert(less + seq![parts.last()] =~= parts);
    }
}

/// What joining makes holds no white space where neither the parts nor what stands between
/// them hold any.
pub proof fn lemma_joined_no_space(parts: Seq<Seq<char>>, between: Seq<char>)
    requires
        no_space(between),
        forall|i: int| 0 <= i < parts.len() ==> no_space(#[trigger] parts[i]),
    ensures
        no_space(joined(parts, between)),
    decreases parts.len(),
{
    if parts.len() == 1 {
        assert(no_space(parts[0]));
    } else if parts.len() > 1 {
        lemma_joined_no_space(parts.drop_last(), between);
        assert(no_space(parts.last()));
        let a = joined(parts.drop_last(), between);
        assert forall|i: int| 0 <= i < joined(parts, between).len() implies !is_space(
            #[trigger] joined(parts, between)[i],
        ) by {
            if i < a.len() {
                assert(joined(parts, between)[i] == a[i]);
            } else if i < a.len() + between.len() {
                assert(joined(parts, between)[i] == between[i - a.len()]);
            } else {
                assert(joined(parts, between)[i] == parts.last()[i - a.len() - between.len()]);
            }
        }
    }
}

/// Whole lines: nothing, or a text that ends in a line break.
pub open spec fn whole_lines(s: Seq<char>) -> bool {
    s.len() == 0 || s.last() == '\n'
}

/// The lines of whole lines and of what is appended to them.
pub proof fn lemma_lines_append(s: Seq<char>, more: Seq<char>)
    requires
        whole_lines(s),
    ensures
        lines_of(s + more) == lines_of(s) + lines_of(more),
    decreases s.len(),
{
    if s.len() == 0 {
        assert(s + more =~= more);
        assert(lines_of(s) + lines_of(more) =~= lines_of(more));
    } else {
        let k = place_of(s, '\n');
        lemma_place_of(s, '\n');
        let all = s + more;
        assert(k < s.len());
        assert(all[k] == '\n');
        assert forall|i: int| 0 <= i < k implies all[i] != '\n' by {
            assert(all[i] == s[i]);
        }
        lemma_place_is(all, '\n', k);
        let rest = s.skip(k + 1);
        lemma_lines_append(rest, more);
        assert(all.skip(k + 1) =~= rest + more);
        assert(all.take(k) =~= s.take(k));
        let head = seq![without_return(s.take(k))];
        assert(head + (lines_of(rest) + lines_of(more)) =~= head + lines_of(rest) + lines_of(more));
    }
}

/// One line, written down, is one line.
pub proof fn lemma_one_line(line: Seq<char>)
    requires
        lacks(line, '\n'),
        lacks(line, '\r'),
    ensures
        lines_of(line + seq!['\n']) == seq![line],
{
    let s = line + seq!['\n'];
    assert(s[line.len() as int] == '\n');
    assert forall|i: int| 0 <= i < line.len() implies s[i] != '\n' by {
        assert(s[i] == line[i]);
    }
    lemma_place_is(s, '\n', line.len() as int);
    assert(s.take(line.len() as int) =~= line);
    assert(s.skip(line.len() as int + 1) =~= Seq::<char>::empty());
    if line.len() > 0 {
        assert(line.last() != '\r');
    }
    assert(lines_of(Seq::<char>::empty()) == Seq::<Seq<char>>::empty());
    assert(seq![line] + Seq::<Seq<char>>::empty() =~= seq![line]);
}

// ---------------------------------------------------------------------------
// bytes
// ---------------------------------------------------------------------------

/// The text that bytes are in UTF-8, where they are one.
pub open spec fn text_of(bytes: Seq<u8>) -> Option<Seq<char>> {
    if vstd::utf8::valid_utf8(bytes) {
        Some(vstd::utf8::decode_utf8(bytes))
    } else {
        None
    }
}

/// `String::from_utf8`: the text whose UTF-8 the bytes are, or nothing where they are not
/// valid UTF-8.
#[verifier::external_body]
pub(crate) fn from_bytes(bytes: Vec<u8>) -> (r: Option<String>)
    ensures
        match r {
            Some(s) => text_of(bytes@) == Some(s@),
            None => text_of(bytes@) is None,
        },
{
    String::from_utf8(bytes).ok()
}

// ---------------------------------------------------------------------------
// columns
// ---------------------------------------------------------------------------

pub open spec fn spaces(count: int) -> Seq<char> {
    Seq::new(
        if count > 0 {
            count as nat
        } else {
            0
        },
        |i: int| ' ',
    )
}

/// A text with spaces behind it, up to a width.
pub open spec fn widened(s: Seq<char>, width: int) -> Seq<char> {
    s + spaces(width - s.len())
}

/// A text with spaces before it, up to a width.
pub open spec fn indented(s: Seq<char>, width: int) -> Seq<char> {
    spaces(width - s.len()) + s
}

fn blank(count: usize) -> (r: String)
    ensures
        r@ == spaces(count as int),
{
    let mut r = String::new();
    for i in 0..count
        invariant
            r@ == spaces(i as int),
    {
        r.push(' ');
        assert(r@ =~= spaces(i as int + 1));
    }
    r
}

pub fn widen(s: &str, width: usize) -> (r: String)
    ensures
        r@ == widened(s@, width as int),
{
    let size: usize = s.unicode_len();
    let mut r = s.to_owned();
    if size < width {
        r.append(blank(width - size).as_str());
    }
    assert(r@ =~= widened(s@, width as int));
    r
}

pub fn indent(s: &str, width: usize) -> (r: String)
    ensures
        r@ == indented(s@, width as int),
{
    let size: usize = s.unicode_len();
    if size < width {
        let mut r = blank(width - size);
        r.append(s);
        r
    } else {
        let r = s.to_owned();
        assert(r@ =~= indented(s@, width as int));
        r
    }
}

// ---------------------------------------------------------------------------
// taking off and putting in
// ---------------------------------------------------------------------------

/// A text without the `c`s that it begins with.
pub open spec fn without_start(s: Seq<char>, c: char) -> Seq<char>
    decreases s.len(),
{
    if s.len() > 0 && s[0] == c {
        without_start(s.drop_first(), c)
    } else {
        s
    }
}

/// A text without the `c`s that it ends with.
pub open spec fn without_end(s: Seq<char>, c: char) -> Seq<char>
    decreases s.len(),
{
    if s.len() > 0 && s.last() == c {
        without_end(s.drop_last(), c)
    } else {
        s
    }
}

pub fn strip_start(s: &str, c: char) -> (r: &str)
    ensures
        r@ == without_start(s@, c),
{
    let x = chars_of(s);
    let size: usize = x.len();
    let mut from: usize = 0;
    assert(x@.skip(0) =~= x@);
    while from < size && x[from] == c
        invariant
            from <= size == x@.len(),
            without_start(x@, c) == without_start(x@.skip(from as int), c),
        decreases size - from,
    {
        assert(x@.skip(from as int).drop_first() =~= x@.skip(from as int + 1));
        from = from + 1;
    }
    assert(x@.subrange(from as int, size as int) =~= x@.skip(from as int));
    slice(s, from, size)
}

pub fn strip_end(s: &str, c: char) -> (r: &str)
    ensures
        r@ == without_end(s@, c),
{
    let x = chars_of(s);
    let mut to: usize = x.len();
    assert(x@.take(to as int) =~= x@);
    while to > 0 && x[to - 1] == c
        invariant
            to <= x@.len(),
            without_end(x@, c) == without_end(x@.take(to as int), c),
        decreases to,
    {
        assert(x@.take(to as int).drop_last() =~= x@.take(to as int - 1));
        to = to - 1;
    }
    assert(x@.subrange(0, to as int) =~= x@.take(to as int));
    slice(s, 0, to)
}

/// A text with every `part` in it, from the left, exchanged for `by`.
pub open spec fn replaced(s: Seq<char>, part: Seq<char>, by: Seq<char>) -> Seq<char>
    decreases s.len(),
    via replaced_decreases
{
    match find_from(s, part, 0) {
        Some(k) => if part.len() > 0 {
            s.take(k) + by + replaced(s.skip(k + part.len()), part, by)
        } else {
            s
        },
        None => s,
    }
}

#[via_fn]
proof fn replaced_decreases(s: Seq<char>, part: Seq<char>, by: Seq<char>) {
    lemma_find_from(s, part, 0);
}

pub fn replace(s: &str, part: &str, by: &str) -> (r: String)
    requires
        part@.len() > 0,
    ensures
        r@ == replaced(s@, part@, by@),
{
    let mut r = String::new();
    let mut rest = s;
    assert(r@ + replaced(rest@, part@, by@) =~= replaced(s@, part@, by@));
    let many: usize = part.unicode_len();
    loop
        invariant
            many == part@.len(),
            many > 0,
            r@ + replaced(rest@, part@, by@) == replaced(s@, part@, by@),
        decreases rest@.len(),
    {
        proof {
            lemma_find_from(rest@, part@, 0);
        }
        match find(rest, part) {
            Some(k) => {
                let size: usize = rest.unicode_len();
                let before = slice(rest, 0, k);
                let behind = slice(rest, k + many, size);
                assert(before@ =~= rest@.take(k as int));
                assert(behind@ =~= rest@.skip(k as int + many as int));
                let ghost had = r@;
                r.append(before);
                r.append(by);
                assert(r@ + replaced(behind@, part@, by@) =~= had + (before@ + by@ + replaced(
                    behind@,
                    part@,
                    by@,
                )));
                rest = behind;
            },
            None => {
                r.append(rest);
                return r;
            },
        }
    }
}

/// What a text is with a part of it replaced, from behind a stretch in which no such part
/// begins.
pub proof fn lemma_replaced_past(x: Seq<char>, rest: Seq<char>, part: Seq<char>, by: Seq<char>)
    requires
        part.len() > 0,
        forall|j: int|
            0 <= j < x.len() && j + part.len() <= x.len() + rest.len() ==> #[trigger] (x
                + rest).subrange(j, j + part.len()) != part,
    ensures
        replaced(x + rest, part, by) == x + replaced(rest, part, by),
{
    let s = x + rest;
    let n = x.len() as int;
    lemma_find_from(s, part, 0);
    lemma_find_from(rest, part, 0);
    match (find_from(s, part, 0), find_from(rest, part, 0)) {
        (Some(i), Some(k)) => {
            assert(i >= n);
            assert(rest.subrange(i - n, i - n + part.len()) =~= s.subrange(i, i + part.len()));
            assert(s.subrange(n + k, n + k + part.len()) =~= rest.subrange(k, k + part.len()));
            assert(i == n + k);
            assert(s.skip(i + part.len()) =~= rest.skip(k + part.len()));
            assert(s.take(i) =~= x + rest.take(k));
            let more = replaced(rest.skip(k + part.len()), part, by);
            assert(x + rest.take(k) + by + more =~= x + (rest.take(k) + by + more));
        },
        (Some(i), None) => {
            assert(rest.subrange(i - n, i - n + part.len()) =~= s.subrange(i, i + part.len()));
        },
        (None, Some(k)) => {
            assert(s.subrange(n + k, n + k + part.len()) =~= rest.subrange(k, k + part.len()));
        },
        (None, None) => {},
    }
}

/// A part that a text begins with is replaced.
pub proof fn lemma_replaced_head(rest: Seq<char>, part: Seq<char>, by: Seq<char>)
    requires
        part.len() > 0,
    ensures
        replaced(part + rest, part, by) == by + replaced(rest, part, by),
{
    let s = part + rest;
    assert(s.subrange(0, part.len() as int) =~= part);
    assert(find_from(s, part, 0) == Some(0int));
    assert(s.take(0) =~= Seq::<char>::empty());
    assert(s.skip(part.len() as int) =~= rest);
    assert(Seq::<char>::empty() + by =~= by);
}

/// A text that lacks a part's first character stays as it is.
pub proof fn lemma_replaced_none(s: Seq<char>, part: Seq<char>, by: Seq<char>)
    requires
        part.len() > 0,
        lacks(s, part[0]),
    ensures
        replaced(s, part, by) == s,
{
    lemma_find_from(s, part, 0);
    if let Some(i) = find_from(s, part, 0) {
        assert(s.subrange(i, i + part.len())[0] == s[i]);
    }
}

/// A text holds whatever stands between its two ends.
pub proof fn lemma_holds_middle(a: Seq<char>, part: Seq<char>, b: Seq<char>)
    ensures
        holds(a + part + b, part),
{
    let s = a + part + b;
    lemma_find_from(s, part, 0);
    assert(s.subrange(a.len() as int, a.len() as int + part.len()) =~= part);
}

/// What stands between two ends decides the whole.
pub proof fn lemma_middle_decides(a: Seq<char>, one: Seq<char>, other: Seq<char>, b: Seq<char>)
    requires
        a + one + b == a + other + b,
    ensures
        one == other,
{
    let s = a + one + b;
    let t = a + other + b;
    assert(s.len() == a.len() + one.len() + b.len());
    assert(t.len() == a.len() + other.len() + b.len());
    assert(s.subrange(a.len() as int, a.len() as int + one.len()) =~= one);
    assert(t.subrange(a.len() as int, a.len() as int + other.len()) =~= other);
}

/// Two numbers are written alike only where they are the same.
pub proof fn lemma_decimals_differ(a: nat, b: nat)
    requires
        decimal_of(a) == decimal_of(b),
    ensures
        a == b,
{
    lemma_decimal_reads_back(a);
    lemma_decimal_reads_back(b);
}

// ---------------------------------------------------------------------------
// what holds of every text
// ---------------------------------------------------------------------------

/// Texts are ordered by the first character in which they differ, and a text comes before every
/// longer one that begins with it.
pub proof fn law_the_first_difference_decides_the_order(
    same: Seq<char>,
    a: char,
    b: char,
    x: Seq<char>,
    y: Seq<char>,
)
    requires
        a != b,
    ensures
        precedes(same + seq![a] + x, same + seq![b] + y) <==> a < b,
        precedes(same, same + seq![a] + x),
        !precedes(same + x, same),
    decreases same.len(),
{
    let one = same + seq![a] + x;
    let other = same + seq![b] + y;
    if same.len() > 0 {
        let less = same.drop_first();
        law_the_first_difference_decides_the_order(less, a, b, x, y);
        assert(one.drop_first() =~= less + seq![a] + x);
        assert(other.drop_first() =~= less + seq![b] + y);
        assert((same + x).drop_first() =~= less + x);
        assert((same + seq![a] + x)[0] == same[0]);
        assert((same + seq![b] + y)[0] == same[0]);
        assert((same + x)[0] == same[0]);
    } else {
        assert(one[0] == a);
        assert(other[0] == b);
    }
}

/// A number is written with the ten digits, the last one behind those of a tenth of it, and reads
/// back as itself, with a sign or without.
pub proof fn law_a_number_is_written_in_decimal(n: nat, digit: nat, most: nat)
    requires
        digit < 10,
    ensures
        decimal_of(digit) == seq!["0123456789"@[digit as int]],
        n > 0 ==> decimal_of(10 * n + digit) == decimal_of(n).push("0123456789"@[digit as int]),
        n <= most ==> number_of(decimal_of(n), most) == Some(n),
        n > most ==> number_of(decimal_of(n), most) is None,
        n <= most ==> number_of("+"@ + decimal_of(n), most) == Some(n),
{
    reveal_strlit("0123456789");
    reveal_strlit("+");
    lemma_decimal_reads_back(n);
    let signed = "+"@ + decimal_of(n);
    assert(signed[0] == '+');
    assert(signed.drop_first() =~= decimal_of(n));
    assert(decimal_of(n)[0] != '+') by {
        assert(is_digit(decimal_of(n)[0]));
    }
    if n > 0 {
        assert((10 * n + digit) / 10 == n);
        assert((10 * n + digit) % 10 == digit);
    }
}

/// What holds anything but digits is no number, and neither is nothing.
pub proof fn law_only_digits_are_a_number(s: Seq<char>, i: int, most: nat)
    requires
        0 < i < s.len(),
        !('0' <= s[i] <= '9'),
    ensures
        number_of(s, most) is None,
        number_of(Seq::empty(), most) is None,
        number_of("+"@, most) is None,
{
    reveal_strlit("+");
    let d = if s[0] == '+' {
        s.drop_first()
    } else {
        s
    };
    if s[0] == '+' {
        assert(d[i - 1] == s[i]);
        assert(!is_digit(d[i - 1]));
    } else {
        assert(!is_digit(d[i]));
    }
    assert("+"@.drop_first() =~= Seq::<char>::empty());
}

/// The space around a text is taken off, and nothing else of it.
pub proof fn law_only_the_space_around_is_taken_off(a: Seq<char>, s: Seq<char>, b: Seq<char>)
    requires
        s.len() > 0,
        !is_space(s[0]),
        !is_space(s.last()),
        forall|i: int| 0 <= i < a.len() ==> is_space(#[trigger] a[i]),
        forall|i: int| 0 <= i < b.len() ==> is_space(#[trigger] b[i]),
    ensures
        trim_of(a + s + b) == s,
        trim_start_of(a + s + b) == s + b,
        trim_end_of(a + s + b) == a + s,
    decreases a.len() + b.len(),
{
    lemma_trim_start_is(a, s + b);
    assert(a + (s + b) =~= a + s + b);
    lemma_trim_end_is(s, b);
    lemma_trim_end_is(a + s, b);
}

proof fn lemma_trim_start_is(a: Seq<char>, s: Seq<char>)
    requires
        s.len() > 0,
        !is_space(s[0]),
        forall|i: int| 0 <= i < a.len() ==> is_space(#[trigger] a[i]),
    ensures
        trim_start_of(a + s) == s,
    decreases a.len(),
{
    if a.len() > 0 {
        assert((a + s)[0] == a[0]);
        assert((a + s).drop_first() =~= a.drop_first() + s);
        lemma_trim_start_is(a.drop_first(), s);
    } else {
        assert(a + s =~= s);
    }
}

proof fn lemma_trim_end_is(s: Seq<char>, b: Seq<char>)
    requires
        s.len() > 0,
        !is_space(s.last()),
        forall|i: int| 0 <= i < b.len() ==> is_space(#[trigger] b[i]),
    ensures
        trim_end_of(s + b) == s,
    decreases b.len(),
{
    if b.len() > 0 {
        assert((s + b).last() == b.last());
        assert((s + b).drop_last() =~= s + b.drop_last());
        lemma_trim_end_is(s, b.drop_last());
    } else {
        assert(s + b =~= s);
    }
}

/// A blank, a tab and both ends of a line are space; letters, digits and marks are not.
pub proof fn law_what_is_space()
    ensures
        is_space(' '),
        is_space('\t'),
        is_space('\n'),
        is_space('\r'),
        forall|c: char| '!' <= c <= '~' ==> !#[trigger] is_space(c),
{
}

/// A line ends at the first line break, with a carriage return before it or without; what stands
/// behind the last one is a line where it is anything.
pub proof fn law_a_line_ends_at_its_break(line: Seq<char>, rest: Seq<char>)
    requires
        lacks(line, '\n'),
        line.len() > 0 ==> line.last() != '\r',
    ensures
        lines_of(line + "\n"@ + rest) == seq![line] + lines_of(rest),
        lines_of(line + "\r\n"@ + rest) == seq![line] + lines_of(rest),
        line.len() > 0 ==> lines_of(line) == seq![line],
        lines_of(Seq::empty()).len() == 0,
{
    reveal_strlit("\n");
    reveal_strlit("\r\n");
    let k = line.len() as int;
    let a = line + "\n"@ + rest;
    assert forall|i: int| 0 <= i < k implies a[i] != '\n' by {
        assert(a[i] == line[i]);
    }
    lemma_place_is(a, '\n', k);
    assert(a.take(k) =~= line);
    assert(a.skip(k + 1) =~= rest);
    let b = line + "\r\n"@ + rest;
    assert forall|i: int| 0 <= i < k + 1 implies b[i] != '\n' by {
        if i < k {
            assert(b[i] == line[i]);
        }
    }
    lemma_place_is(b, '\n', k + 1);
    assert(b.take(k + 1) =~= line.push('\r'));
    assert(line.push('\r').drop_last() =~= line);
    assert(b.skip(k + 2) =~= rest);
    lemma_place_is(line, '\n', k);
}

/// Parts that were joined come apart again at what stands between them.
pub proof fn law_cutting_undoes_joining(parts: Seq<Seq<char>>, c: char)
    requires
        parts.len() > 0,
        forall|k: int| 0 <= k < parts.len() ==> lacks(#[trigger] parts[k], c),
    ensures
        pieces(joined(parts, seq![c]), c) == parts,
{
    lemma_pieces_of_joined(parts, c, seq![c]);
}

/// Joining puts what stands between between any two parts, and nowhere else.
pub proof fn law_parts_are_joined_in_order(
    parts: Seq<Seq<char>>,
    part: Seq<char>,
    between: Seq<char>,
)
    ensures
        joined(Seq::empty(), between).len() == 0,
        joined(seq![part], between) == part,
        parts.len() > 0 ==> joined(parts.push(part), between) == joined(parts, between) + between
            + part,
{
    assert(parts.push(part).drop_last() =~= parts);
}

/// The case of the letters `A` to `Z` makes no difference, and that of nothing else is changed.
pub proof fn law_the_alphabet_is_folded(s: Seq<char>, i: int)
    requires
        0 <= i < s.len(),
    ensures
        folded("ABCDEFGHIJKLMNOPQRSTUVWXYZ"@) == "abcdefghijklmnopqrstuvwxyz"@,
        folded(s).len() == s.len(),
        !('A' <= s[i] <= 'Z') ==> folded(s)[i] == s[i],
        'A' <= s[i] <= 'Z' ==> folded(s)[i] == "abcdefghijklmnopqrstuvwxyz"@[s[i] as u32 as int
            - 65],
{
    reveal_strlit("ABCDEFGHIJKLMNOPQRSTUVWXYZ");
    reveal_strlit("abcdefghijklmnopqrstuvwxyz");
    assert(folded("ABCDEFGHIJKLMNOPQRSTUVWXYZ"@) =~= "abcdefghijklmnopqrstuvwxyz"@);
}

/// A text holds a part exactly where it stands somewhere in it, begins with one that it starts
/// with, and ends in one that it stops with.
pub proof fn law_a_part_is_found_where_it_stands(a: Seq<char>, part: Seq<char>, b: Seq<char>, s: Seq<char>)
    ensures
        holds(a + part + b, part),
        holds(s, part) ==> exists|k: int|
            0 <= k && k + part.len() <= s.len() && #[trigger] s.subrange(k, k + part.len()) == part,
        begins(part + b, part),
        ends(a + part, part),
        begins(s, part) ==> s == part + s.skip(part.len() as int),
        ends(s, part) ==> s == s.take(s.len() - part.len()) + part,
{
    lemma_holds_middle(a, part, b);
    lemma_find_from(s, part, 0);
    assert((part + b).take(part.len() as int) =~= part);
    assert((a + part).skip(a.len() as int) =~= part);
    if begins(s, part) {
        assert(s =~= part + s.skip(part.len() as int));
    }
    if ends(s, part) {
        assert(s =~= s.take(s.len() - part.len()) + part);
    }
}

/// A text is brought to a width with blanks behind it or before it, and never cut.
pub proof fn law_a_width_is_filled_with_blanks(s: Seq<char>, width: int)
    ensures
        begins(widened(s, width), s),
        ends(indented(s, width), s),
        width > s.len() ==> widened(s, width).len() == width && indented(s, width).len() == width,
        width <= s.len() ==> widened(s, width) == s && indented(s, width) == s,
        forall|i: int| s.len() <= i < widened(s, width).len() ==> widened(s, width)[i] == ' ',
        forall|i: int|
            0 <= i < indented(s, width).len() - s.len() ==> indented(s, width)[i] == ' ',
{
    assert(widened(s, width).take(s.len() as int) =~= s);
    let r = indented(s, width);
    assert(r.skip(r.len() - s.len()) =~= s);
    if width <= s.len() {
        assert(widened(s, width) =~= s);
        assert(r =~= s);
    }
}

/// Every place where a part stands is replaced, from the left.
pub proof fn law_every_part_is_replaced(
    a: Seq<char>,
    part: Seq<char>,
    by: Seq<char>,
    rest: Seq<char>,
)
    requires
        part.len() > 0,
        lacks(a, part[0]),
    ensures
        replaced(a, part, by) == a,
        replaced(part + rest, part, by) == by + replaced(rest, part, by),
        replaced(a + part + rest, part, by) == a + by + replaced(rest, part, by),
{
    lemma_replaced_none(a, part, by);
    lemma_replaced_head(rest, part, by);
    let tail = part + rest;
    assert forall|j: int| 0 <= j < a.len() && j + part.len() <= a.len() + tail.len() implies (
    #[trigger] (a + tail).subrange(j, j + part.len())) != part by {
        assert((a + tail).subrange(j, j + part.len())[0] == a[j]);
    }
    lemma_replaced_past(a, tail, part, by);
    assert(a + tail =~= a + part + rest);
    assert(a + (by + replaced(rest, part, by)) =~= a + by + replaced(rest, part, by));
}

proof fn lemma_digits_to_the_end(s: Seq<char>)
    requires
        all_digits(s),
    ensures
        digits_at_start(s) == s.len(),
    decreases s.len(),
{
    if s.len() > 0 {
        assert(is_digit(s[0]));
        assert forall|i: int| 0 <= i < s.drop_first().len() implies is_digit(
            #[trigger] s.drop_first()[i],
        ) by {
            assert(is_digit(s[i + 1]));
        }
        lemma_digits_to_the_end(s.drop_first());
    }
}

/// What is wrong with a text that is no number is told apart: that there is nothing in it, that it
/// is too large, or that it holds something else.
pub proof fn law_what_is_wrong_with_a_number_is_told(n: nat, most: nat, c: char, rest: Seq<char>)
    ensures
        number_fault_of(Seq::empty(), most) == "cannot parse integer from empty string"@,
        n > most ==> number_fault_of(decimal_of(n), most)
            == "number too large to fit in target type"@,
        !('0' <= c <= '9') && c != '+' ==> number_fault_of(seq![c] + rest, most)
            == "invalid digit found in string"@,
{
    lemma_decimal_reads_back(n);
    let d = decimal_of(n);
    assert(is_digit(d[0]));
    lemma_digits_to_the_end(d);
    assert(d.take(d.len() as int) =~= d);
    let s = seq![c] + rest;
    assert(s[0] == c);
    if !('0' <= c <= '9') && c != '+' {
        assert(digits_at_start(s) == 0);
        assert(s.take(0) =~= Seq::<char>::empty());
    }
}

} // verus!
