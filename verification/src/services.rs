//! Services this machine has enrolled with, and the key it uses for each.
//!
//! One fresh keypair per service, so that no two of them can discover that they are talking
//! to the same machine. There is no token here, and nothing expires.

use vstd::prelude::*;
use vstd::string::*;

use crate::book;
use crate::fleet;
use crate::path;
use crate::text;

verus! {

pub const FILE: &'static str = "services.toml";

#[derive(Debug, Clone)]
pub struct Book {
    pub services: Vec<Service>,
}

impl Default for Book {
    fn default() -> (r: Self)
        ensures
            r.services@ == Seq::<Service>::empty(),
    {
        Book { services: Vec::new() }
    }
}

#[derive(Debug, Clone)]
pub struct Service {
    /// How the service is named: the host, as typed.
    pub at: String,
    /// The key minted for this service, and nowhere else.
    pub key: String,
    /// Who the service said we are. For showing somebody, never for proving anything.
    pub as_whom: Option<String>,
    pub at_time: u64,
}

#[verifier::ext_equal]
pub struct ServiceView {
    pub at: Seq<char>,
    pub key: Seq<char>,
    pub as_whom: Option<Seq<char>>,
    pub at_time: u64,
}

impl View for Service {
    type V = ServiceView;

    open spec fn view(&self) -> ServiceView {
        ServiceView {
            at: self.at@,
            key: self.key@,
            as_whom: fleet::held_text(self.as_whom),
            at_time: self.at_time,
        }
    }
}

/// The entries of a book, each under the name of its service.
pub open spec fn rows(services: Seq<Service>) -> Seq<(Seq<char>, ServiceView)> {
    services.map_values(|s: Service| (s.at@, s@))
}

#[derive(Debug, Clone)]
pub struct Services {
    pub path: String,
    pub book: Book,
}

impl View for Services {
    type V = Seq<(Seq<char>, ServiceView)>;

    open spec fn view(&self) -> Seq<(Seq<char>, ServiceView)> {
        rows(self.book.services@)
    }
}

impl Services {
    /// The book as it stands in a file. No file means no services.
    pub fn of(home: &str, book: Option<Book>) -> (r: Self)
        ensures
            r.path@ == path::join_of(home@, FILE@),
            r@ == match book {
                Some(book) => rows(book.services@),
                None => Seq::<(Seq<char>, ServiceView)>::empty(),
            },
    {
        let r = Services {
            path: path::join(home, FILE),
            book: match book {
                Some(book) => book,
                None => Book::default(),
            },
        };
        proof {
            if book is None {
                assert(r@ =~= Seq::<(Seq<char>, ServiceView)>::empty());
            }
        }
        r
    }

    /// Where the first entry of this name stands, or the number of entries.
    fn place(&self, at: &str) -> (r: usize)
        ensures
            r == book::place(self@, at@),
            r <= self@.len(),
    {
        let mut i: usize = 0;
        while i < self.book.services.len() && !text::same(self.book.services[i].at.as_str(), at)
            invariant
                i <= self.book.services@.len(),
                forall|k: int| 0 <= k < i ==> (#[trigger] self@[k]).0 != at@,
            decreases self.book.services@.len() - i,
        {
            assert(self@[i as int].0 == self.book.services@[i as int].at@);
            i = i + 1;
        }
        proof {
            if i < self@.len() {
                assert(self@[i as int].0 == self.book.services@[i as int].at@);
            }
            book::lemma_place_is(self@, at@, i as int);
        }
        i
    }

    /// The key to dial this service with, if this machine has enrolled.
    ///
    /// Matched on the name as typed: a machine that enrolled by name should keep working
    /// when the key rotates, and one that enrolled by key should not silently follow a name
    /// somewhere else.
    pub fn key_for(&self, at: &str) -> (r: Option<&Service>)
        ensures
            match r {
                Some(s) => book::look_up(self@, at@) == Some(s@),
                None => book::look_up(self@, at@) is None,
            },
    {
        let i = self.place(at);
        if i < self.book.services.len() {
            Some(&self.book.services[i])
        } else {
            None
        }
    }

    pub fn all(&self) -> (r: &[Service])
        ensures
            rows(r@) == self@,
    {
        self.book.services.as_slice()
    }

    /// Remember a service, or replace what was known of it.
    pub fn remember(&mut self, service: Service)
        ensures
            final(self)@ == book::remembered(old(self)@, service@.at, service@),
            final(self).path@ == old(self).path@,
    {
        let i = self.place(service.at.as_str());
        let ghost before = self@;
        if i < self.book.services.len() {
            self.book.services.set(i, service);
        } else {
            self.book.services.push(service);
        }
        assert(self@ =~= book::remembered(before, service@.at, service@));
    }

    /// Forget a service. Returns what was forgotten.
    pub fn forget(&mut self, at: &str) -> (r: Option<Service>)
        ensures
            final(self)@ == book::forgotten(old(self)@, at@),
            final(self).path@ == old(self).path@,
            match r {
                Some(s) => book::look_up(old(self)@, at@) == Some(s@),
                None => book::look_up(old(self)@, at@) is None,
            },
    {
        let i = self.place(at);
        let ghost before = self@;
        if i < self.book.services.len() {
            let gone = self.book.services.remove(i);
            assert(self@ =~= book::forgotten(before, at@));
            Some(gone)
        } else {
            None
        }
    }
}

} // verus!
