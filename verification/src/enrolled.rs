//! Keys this controller has agreed to remember.
//!
//! A laptop proves itself once and leaves a key behind. After that there is no session: a
//! later request is authenticated by the connection it arrives on, because dialling from a
//! key is possession of it. Revocation is this book forgetting the key.

use vstd::prelude::*;
use vstd::string::*;

use crate::book;
use crate::fleet;
use crate::path;
use crate::text;

verus! {

pub const FILE: &'static str = "enrolled.toml";

#[derive(Debug, Clone)]
pub struct Book {
    pub keys: Vec<Enrolled>,
}

impl Default for Book {
    fn default() -> (r: Self)
        ensures
            r.keys@ == Seq::<Enrolled>::empty(),
    {
        Book { keys: Vec::new() }
    }
}

#[derive(Debug, Clone)]
pub struct Enrolled {
    /// The key that will be dialling. The whole of the credential.
    pub key: String,
    /// Who they are, as the issuer proved it.
    pub alias: String,
    /// Which issuer vouched, and when.
    pub issuer: String,
    pub at: u64,
    /// What the caller called the machine. Advisory, and never trusted for anything.
    pub note: Option<String>,
}

#[verifier::ext_equal]
pub struct EnrolledView {
    pub key: Seq<char>,
    pub alias: Seq<char>,
    pub issuer: Seq<char>,
    pub at: u64,
    pub note: Option<Seq<char>>,
}

impl View for Enrolled {
    type V = EnrolledView;

    open spec fn view(&self) -> EnrolledView {
        EnrolledView {
            key: self.key@,
            alias: self.alias@,
            issuer: self.issuer@,
            at: self.at,
            note: fleet::held_text(self.note),
        }
    }
}

/// The entries of a book, each under its key.
pub open spec fn rows(keys: Seq<Enrolled>) -> Seq<(Seq<char>, EnrolledView)> {
    keys.map_values(|e: Enrolled| (e.key@, e@))
}

#[derive(Debug, Clone)]
pub struct Keys {
    pub path: String,
    pub book: Book,
}

impl View for Keys {
    type V = Seq<(Seq<char>, EnrolledView)>;

    open spec fn view(&self) -> Seq<(Seq<char>, EnrolledView)> {
        rows(self.book.keys@)
    }
}

/// The entries of one alias, in order.
pub open spec fn of_alias(rows: Seq<(Seq<char>, EnrolledView)>, alias: Seq<char>) -> Seq<
    EnrolledView,
>
    decreases rows.len(),
{
    if rows.len() == 0 {
        Seq::empty()
    } else {
        let before = of_alias(rows.drop_last(), alias);
        if rows.last().1.alias == alias {
            before.push(rows.last().1)
        } else {
            before
        }
    }
}

impl Keys {
    pub fn path_in(root: &str) -> (r: String)
        ensures
            r@ == path::join_of(root@, FILE@),
    {
        path::join(root, FILE)
    }

    /// The book as it stands in a file. No file means nobody.
    pub fn of(root: &str, book: Option<Book>) -> (r: Self)
        ensures
            r.path@ == path::join_of(root@, FILE@),
            r@ == match book {
                Some(book) => rows(book.keys@),
                None => Seq::<(Seq<char>, EnrolledView)>::empty(),
            },
    {
        let r = Keys {
            path: Self::path_in(root),
            book: match book {
                Some(book) => book,
                None => Book::default(),
            },
        };
        proof {
            if book is None {
                assert(r@ =~= Seq::<(Seq<char>, EnrolledView)>::empty());
            }
        }
        r
    }

    pub fn len(&self) -> (r: usize)
        ensures
            r == self@.len(),
    {
        self.book.keys.len()
    }

    pub fn is_empty(&self) -> (r: bool)
        ensures
            r == (self@.len() == 0),
    {
        self.book.keys.is_empty()
    }

    /// Where the first entry under `key` stands, or the number of entries.
    fn place(&self, key: &str) -> (r: usize)
        ensures
            r == book::place(self@, key@),
            r <= self@.len(),
    {
        let mut i: usize = 0;
        while i < self.book.keys.len() && !text::same(self.book.keys[i].key.as_str(), key)
            invariant
                i <= self.book.keys@.len(),
                forall|k: int| 0 <= k < i ==> (#[trigger] self@[k]).0 != key@,
            decreases self.book.keys@.len() - i,
        {
            assert(self@[i as int].0 == self.book.keys@[i as int].key@);
            i = i + 1;
        }
        proof {
            if i < self@.len() {
                assert(self@[i as int].0 == self.book.keys@[i as int].key@);
            }
            book::lemma_place_is(self@, key@, i as int);
        }
        i
    }

    /// Who this key belongs to, if anybody.
    pub fn who(&self, key: &str) -> (r: Option<&Enrolled>)
        ensures
            match r {
                Some(e) => book::look_up(self@, key@) == Some(e@),
                None => book::look_up(self@, key@) is None,
            },
    {
        let i = self.place(key);
        if i < self.book.keys.len() {
            Some(&self.book.keys[i])
        } else {
            None
        }
    }

    /// Remember a key, or update the one already there.
    ///
    /// Re-enrolling the same key is not an error: somebody who logs in twice has done
    /// nothing wrong.
    pub fn remember(&mut self, entry: Enrolled)
        ensures
            final(self)@ == book::remembered(old(self)@, entry@.key, entry@),
            final(self).path@ == old(self).path@,
    {
        let i = self.place(entry.key.as_str());
        let ghost before = self@;
        if i < self.book.keys.len() {
            self.book.keys.set(i, entry);
        } else {
            self.book.keys.push(entry);
        }
        assert(self@ =~= book::remembered(before, entry@.key, entry@));
    }

    /// Forget a key. Returns what was forgotten, so a caller can say whose it was.
    ///
    /// By key rather than by alias: revoking a stolen laptop should not lock somebody out
    /// of their other two.
    pub fn forget(&mut self, key: &str) -> (r: Option<Enrolled>)
        ensures
            final(self)@ == book::forgotten(old(self)@, key@),
            final(self).path@ == old(self).path@,
            match r {
                Some(e) => book::look_up(old(self)@, key@) == Some(e@),
                None => book::look_up(old(self)@, key@) is None,
            },
    {
        let i = self.place(key);
        let ghost before = self@;
        if i < self.book.keys.len() {
            let gone = self.book.keys.remove(i);
            assert(self@ =~= book::forgotten(before, key@));
            Some(gone)
        } else {
            None
        }
    }

    /// Every key one alias holds, for showing somebody what they have.
    pub fn held_by(&self, alias: &str) -> (r: Vec<&Enrolled>)
        ensures
            r@.map_values(|e: &Enrolled| e@) == of_alias(self@, alias@),
    {
        let mut r: Vec<&Enrolled> = Vec::new();
        let ghost all = self@;
        let mut i: usize = 0;
        proof {
            assert(r@.map_values(|e: &Enrolled| e@) =~= of_alias(all.take(0), alias@));
        }
        while i < self.book.keys.len()
            invariant
                i <= self.book.keys@.len(),
                all == self@,
                r@.map_values(|e: &Enrolled| e@) == of_alias(all.take(i as int), alias@),
            decreases self.book.keys@.len() - i,
        {
            proof {
                assert(all.take(i as int + 1).drop_last() =~= all.take(i as int));
                assert(all.take(i as int + 1).last().1 == self.book.keys@[i as int]@);
            }
            if text::same(self.book.keys[i].alias.as_str(), alias) {
                let entry = &self.book.keys[i];
                assert(r@.push(entry).map_values(|e: &Enrolled| e@) =~= r@.map_values(
                    |e: &Enrolled| e@,
                ).push(entry@));
                r.push(entry);
            }
            i = i + 1;
        }
        assert(all.take(i as int) =~= all);
        r
    }
}

/// Everybody is shown every key of their own, in the order they were remembered, and nobody
/// else's.
pub proof fn law_everybody_sees_their_own_keys(
    rows: Seq<(Seq<char>, EnrolledView)>,
    row: (Seq<char>, EnrolledView),
    alias: Seq<char>,
)
    ensures
        of_alias(Seq::empty(), alias).len() == 0,
        row.1.alias == alias ==> of_alias(rows.push(row), alias) == of_alias(rows, alias).push(
            row.1,
        ),
        row.1.alias != alias ==> of_alias(rows.push(row), alias) == of_alias(rows, alias),
{
    assert(rows.push(row).drop_last() =~= rows);
}

} // verus!
