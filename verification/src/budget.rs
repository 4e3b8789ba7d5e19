//! The ledger: what each tenant has spent, and what is left of a budget.
//!
//! One credit is one minute of the cheapest machine class. A ledger is append-only text,
//! one line per closed reservation, in unix seconds: no calendar, no timezone.

use vstd::prelude::*;
use vstd::string::*;

use crate::fleet;
use crate::path;
use crate::text;

verus! {

pub const FILE: &'static str = "spend.log";

/// A day, rolling.
pub const WINDOW_SECS: u64 = 86_400;

pub fn path_in(tenant_dir: &str) -> (r: String)
    ensures
        r@ == path::join_of(tenant_dir@, FILE@),
{
    path::join(tenant_dir, FILE)
}

/// One closed reservation.
#[derive(Debug, Clone, PartialEq, Eq)]
pub struct Entry {
    pub at: u64,
    pub credits: u64,
    pub reservation: String,
    pub minutes: u64,
    pub machines: Vec<String>,
}

#[verifier::ext_equal]
pub struct EntryView {
    pub at: u64,
    pub credits: u64,
    pub reservation: Seq<char>,
    pub minutes: u64,
    pub machines: Seq<Seq<char>>,
}

impl View for Entry {
    type V = EntryView;

    open spec fn view(&self) -> EntryView {
        EntryView {
            at: self.at,
            credits: self.credits,
            reservation: self.reservation@,
            minutes: self.minutes,
            machines: text::texts(self.machines@),
        }
    }
}

impl EntryView {
    /// The line an entry is written down as.
    pub open spec fn line(self) -> Seq<char> {
        text::decimal_of(self.at as nat) + " "@ + text::decimal_of(self.credits as nat) + " "@
            + self.reservation + " "@ + text::decimal_of(self.minutes as nat) + " "@
            + text::joined(self.machines, ","@) + "\n"@
    }
}

/// The number that a word says, or nought where it says none.
pub open spec fn number_or_nought(word: Seq<char>) -> u64 {
    match text::number_of(word, u64::MAX as nat) {
        Some(n) => n as u64,
        None => 0,
    }
}

/// What a line says. It has to start with two numbers; what is missing behind them is made
/// up for.
pub open spec fn entry_of(line: Seq<char>) -> Option<EntryView> {
    let words = text::words_of(line);
    if words.len() < 2 {
        None
    } else {
        match (
            text::number_of(words[0], u64::MAX as nat),
            text::number_of(words[1], u64::MAX as nat),
        ) {
            (Some(at), Some(credits)) => Some(
                EntryView {
                    at: at as u64,
                    credits: credits as u64,
                    reservation: if words.len() > 2 { words[2] } else { "?"@ },
                    minutes: if words.len() > 3 { number_or_nought(words[3]) } else { 0 },
                    machines: if words.len() > 4 {
                        text::pieces(words[4], ',')
                    } else {
                        Seq::empty()
                    },
                },
            ),
            _ => None,
        }
    }
}

impl Entry {
    pub fn line(&self) -> (r: String)
        ensures
            r@ == self@.line(),
    {
        let mut r = text::decimal(self.at);
        r.append(" ");
        r.append(text::decimal(self.credits).as_str());
        r.append(" ");
        r.append(self.reservation.as_str());
        r.append(" ");
        r.append(text::decimal(self.minutes).as_str());
        r.append(" ");
        r.append(text::join(self.machines.as_slice(), ",").as_str());
        r.append("\n");
        r
    }

    pub fn parse(line: &str) -> (r: Option<Self>)
        ensures
            match r {
                Some(entry) => entry_of(line@) == Some(entry@),
                None => entry_of(line@) is None,
            },
    {
        let words = text::words(line);
        let ghost all = text::words_of(line@);
        proof {
            assert(text::texts(words@) == all);
            assert(words@.len() == all.len());
            assert forall|i: int| 0 <= i < all.len() implies #[trigger] all[i] == words@[i]@ by {
                assert(text::texts(words@)[i] == words@[i]@);
            }
        }
        if words.len() < 2 {
            return None;
        }
        let at = match text::number(words[0].as_str(), u64::MAX) {
            Some(n) => n,
            None => {
                return None;
            },
        };
        let credits = match text::number(words[1].as_str(), u64::MAX) {
            Some(n) => n,
            None => {
                return None;
            },
        };
        let reservation = if words.len() > 2 { words[2].clone() } else { "?".to_owned() };
        let minutes = if words.len() > 3 {
            match text::number(words[3].as_str(), u64::MAX) {
                Some(n) => n,
                None => 0,
            }
        } else {
            0
        };
        let machines = if words.len() > 4 {
            text::split(words[4].as_str(), ',')
        } else {
            Vec::new()
        };
        let entry = Entry { at, credits, reservation, minutes, machines };
        proof {
            if words@.len() <= 4 {
                assert(entry@.machines =~= Seq::<Seq<char>>::empty());
            }
            assert(entry_of(line@) == Some(entry@));
        }
        Some(entry)
    }
}

/// What the lines of a ledger say, the oldest first. A line that says nothing is skipped:
/// losing one line beats losing the budget.
pub open spec fn entries_of(lines: Seq<Seq<char>>, from: u64) -> Seq<EntryView>
    decreases lines.len(),
{
    if lines.len() == 0 {
        Seq::empty()
    } else {
        let before = entries_of(lines.drop_last(), from);
        match entry_of(lines.last()) {
            Some(entry) => if entry.at >= from {
                before.push(entry)
            } else {
                before
            },
            None => before,
        }
    }
}

/// What a list of entries is.
pub open spec fn entries(list: Seq<Entry>) -> Seq<EntryView> {
    list.map_values(|e: Entry| e@)
}

/// What a ledger says of the time since `from`. A ledger that is not there is empty.
pub fn entries_since(ledger: &str, from: u64) -> (r: Vec<Entry>)
    ensures
        entries(r@) == entries_of(text::lines_of(ledger@), from),
{
    let lines = text::lines(ledger);
    let ghost all = text::lines_of(ledger@);
    let mut r: Vec<Entry> = Vec::new();
    let mut i: usize = 0;
    while i < lines.len()
        invariant
            i <= lines@.len(),
            text::texts(lines@) == all,
            entries(r@) == entries_of(all.take(i as int), from),
        decreases lines@.len() - i,
    {
        proof {
            assert(all.take(i as int + 1).drop_last() =~= all.take(i as int));
            assert(all.take(i as int + 1).last() == text::texts(lines@)[i as int]);
        }
        if let Some(entry) = Entry::parse(lines[i].as_str()) {
            if entry.at >= from {
                assert(entries(r@.push(entry)) =~= entries(r@).push(entry@));
                r.push(entry);
            }
        }
        i = i + 1;
    }
    assert(all.take(i as int) =~= all);
    r
}

/// The credits of a list of entries.
pub open spec fn credits_of(list: Seq<EntryView>) -> nat
    decreases list.len(),
{
    if list.len() == 0 {
        0
    } else {
        credits_of(list.drop_last()) + list.last().credits as nat
    }
}

/// The start of a window that ends at `now`.
pub open spec fn window_start(now: u64, window: u64) -> u64 {
    if now >= window {
        (now - window) as u64
    } else {
        0
    }
}

/// What a ledger says was spent in the `window` seconds before `now`.
pub open spec fn spent_of(ledger: Seq<char>, now: u64, window: u64) -> nat {
    credits_of(entries_of(text::lines_of(ledger), window_start(now, window)))
}

/// The same, as far as it can be counted.
pub fn spent(ledger: &str, now: u64, window: u64) -> (r: u64)
    ensures
        r == fleet::at_most(spent_of(ledger@, now, window), u64::MAX as nat),
{
    let from: u64 = if now >= window { now - window } else { 0 };
    let list = entries_since(ledger, from);
    let ghost all = entries(list@);
    let mut sum: u64 = 0;
    let mut i: usize = 0;
    while i < list.len()
        invariant
            i <= list@.len(),
            all == entries(list@),
            sum == fleet::at_most(credits_of(all.take(i as int)), u64::MAX as nat),
        decreases list@.len() - i,
    {
        proof {
            assert(all.take(i as int + 1).drop_last() =~= all.take(i as int));
            assert(all.take(i as int + 1).last() == list@[i as int]@);
        }
        sum = match sum.checked_add(list[i].credits) {
            Some(more) => more,
            None => u64::MAX,
        };
        i = i + 1;
    }
    assert(all.take(i as int) =~= all);
    sum
}

// ---------------------------------------------------------------------------
// room
// ---------------------------------------------------------------------------

/// What a budget has left: what is spent counts, and what open grants may still cost.
#[derive(Debug, Clone, Copy, PartialEq, Eq, Structural)]
pub struct Room {
    pub budget: u64,
    pub spent: u64,
    pub committed: u64,
}

/// The sum of a list of rates.
pub open spec fn total(rates: Seq<u32>) -> nat
    decreases rates.len(),
{
    if rates.len() == 0 {
        0
    } else {
        total(rates.drop_last()) + rates.last() as nat
    }
}

/// What the first `count` machines cost over `minutes`.
pub open spec fn price(rates: Seq<u32>, count: int, minutes: nat) -> nat {
    total(rates.take(count)) * minutes
}

impl Room {
    /// Nothing, where the budget is overrun.
    pub open spec fn remaining(self) -> nat {
        if self.spent + self.committed < self.budget {
            (self.budget - self.spent - self.committed) as nat
        } else {
            0
        }
    }

    /// Are so many machines, the first ones, what the rest can buy for a whole lifetime? They
    /// have to fit, and one more must not, as far as a count goes.
    pub open spec fn buys(self, rates: Seq<u32>, lifetime: u64, count: u32) -> bool {
        let minutes = fleet::minutes_held(0, lifetime as nat);
        &&& count <= rates.len()
        &&& price(rates, count as int, minutes) <= self.remaining()
        &&& count < rates.len() && count < u32::MAX ==> price(rates, count + 1, minutes)
            > self.remaining()
    }

    /// How many machines, the first ones, the rest can buy for a whole lifetime.
    pub open spec fn affords(self, rates: Seq<u32>, lifetime: u64) -> u32 {
        choose|count: u32| self.buys(rates, lifetime, count)
    }

    /// There is one such number.
    pub proof fn lemma_affords(self, rates: Seq<u32>, lifetime: u64, count: u32)
        requires
            self.buys(rates, lifetime, count),
        ensures
            count == self.affords(rates, lifetime),
    {
        let other = self.affords(rates, lifetime);
        let minutes = fleet::minutes_held(0, lifetime as nat);
        if other < count {
            lemma_price_grows(rates, other + 1, count as int, minutes);
        }
        if count < other {
            lemma_price_grows(rates, count + 1, other as int, minutes);
        }
    }

    /// There is such a number.
    pub proof fn lemma_some_are_afforded(self, rates: Seq<u32>, lifetime: u64)
        ensures
            self.buys(rates, lifetime, self.affords(rates, lifetime)),
    {
        assert(rates.take(0) =~= Seq::<u32>::empty());
        let minutes = fleet::minutes_held(0, lifetime as nat);
        assert(0 * minutes == 0);
        self.lemma_afforded_from(rates, lifetime, 0);
    }

    proof fn lemma_afforded_from(self, rates: Seq<u32>, lifetime: u64, from: u32)
        requires
            from <= rates.len(),
            price(rates, from as int, fleet::minutes_held(0, lifetime as nat))
                <= self.remaining(),
        ensures
            exists|count: u32| self.buys(rates, lifetime, count),
        decreases rates.len() - from,
    {
        if !self.buys(rates, lifetime, from) {
            self.lemma_afforded_from(rates, lifetime, (from + 1) as u32);
        }
    }

    pub fn left(&self) -> (r: u64)
        ensures
            r == self.remaining(),
    {
        let unspent: u64 = if self.spent < self.budget { self.budget - self.spent } else { 0 };
        if self.committed < unspent {
            unspent - self.committed
        } else {
            0
        }
    }

    /// How many machines, taken in the order of `rates`, the rest can buy for a whole
    /// `lifetime`.
    ///
    /// Each at its own rate: pricing every machine at the cheapest one would permit more
    /// than there is money for.
    pub fn affordable(&self, rates: &[u32], lifetime: u64) -> (r: u32)
        ensures
            self.buys(rates@, lifetime, r),
            r == self.affords(rates@, lifetime),
    {
        let r = self.count_affordable(rates, lifetime);
        proof {
            self.lemma_affords(rates@, lifetime, r);
        }
        r
    }

    fn count_affordable(&self, rates: &[u32], lifetime: u64) -> (r: u32)
        ensures
            self.buys(rates@, lifetime, r),
    {
        let minutes: u64 = if lifetime == 0 { 1 } else { (lifetime - 1) / 60 + 1 };
        let ghost span = fleet::minutes_held(0, lifetime as nat);
        assert(minutes == span);
        let mut left = self.left();
        let mut count: u32 = 0;
        let mut i: usize = 0;
        proof {
            assert(rates@.take(0) =~= Seq::<u32>::empty());
            assert(0 * span == 0);
        }
        while i < rates.len() && count < u32::MAX
            invariant
                i <= rates@.len(),
                count == i,
                minutes == span,
                span == fleet::minutes_held(0, lifetime as nat),
                left + price(rates@, i as int, span) == self.remaining(),
            decreases rates@.len() - i,
        {
            proof {
                let more = rates@.take(i as int + 1);
                assert(more.drop_last() =~= rates@.take(i as int));
                let a = total(rates@.take(i as int));
                let b = rates@[i as int] as nat;
                assert((a + b) * span == a * span + b * span) by (nonlinear_arith);
                assert(price(rates@, i as int + 1, span) == price(rates@, i as int, span) + b
                    * span);
            }
            match (rates[i] as u64).checked_mul(minutes) {
                Some(cost) => {
                    if cost > left {
                        return count;
                    }
                    left = left - cost;
                },
                None => {
                    return count;
                },
            }
            count = count + 1;
            i = i + 1;
        }
        count
    }
}

// ---------------------------------------------------------------------------
// what holds of a ledger and of a budget
// ---------------------------------------------------------------------------

impl EntryView {
    /// Can a line hold this entry? A name in it may hold no white space, and a machine's no
    /// comma.
    pub open spec fn writable(self) -> bool {
        &&& self.reservation.len() > 0
        &&& text::no_space(self.reservation)
        &&& forall|i: int|
            0 <= i < self.machines.len() ==> text::no_space(#[trigger] self.machines[i])
                && text::lacks(self.machines[i], ',')
        &&& self.machines.len() == 1 ==> self.machines[0].len() > 0
    }
}

proof fn lemma_digits_no_space(n: nat)
    ensures
        text::no_space(text::decimal_of(n)),
        text::decimal_of(n).len() > 0,
{
    text::lemma_decimal_reads_back(n);
    assert forall|i: int| 0 <= i < text::decimal_of(n).len() implies !text::is_space(
        #[trigger] text::decimal_of(n)[i],
    ) by {
        assert(text::is_digit(text::decimal_of(n)[i]));
    }
}

/// An entry's line, from its word `k` on, counted from the end.
spec fn tail(e: EntryView, k: int) -> Seq<char>
    decreases k,
{
    if k <= 0 {
        seq!['\n']
    } else if k == 1 {
        seq![' '] + (text::joined(e.machines, ","@) + tail(e, 0))
    } else if k == 2 {
        seq![' '] + (text::decimal_of(e.minutes as nat) + tail(e, 1))
    } else if k == 3 {
        seq![' '] + (e.reservation + tail(e, 2))
    } else if k == 4 {
        seq![' '] + (text::decimal_of(e.credits as nat) + tail(e, 3))
    } else {
        text::decimal_of(e.at as nat) + tail(e, 4)
    }
}

proof fn lemma_line_is_tail(e: EntryView)
    ensures
        e.line() == tail(e, 5),
{
    reveal_strlit(" ");
    reveal_strlit("\n");
    assert(" "@ =~= seq![' ']);
    assert("\n"@ =~= seq!['\n']);
    reveal_with_fuel(tail, 7);
    assert(e.line() =~= tail(e, 5));
}

/// What is written down reads back as it was.
pub proof fn law_an_entry_round_trips(e: EntryView)
    requires
        e.writable(),
    ensures
        entry_of(e.line()) == Some(e),
{
    reveal_strlit(",");
    assert(","@ =~= seq![',']);
    lemma_line_is_tail(e);
    reveal_with_fuel(tail, 7);
    let names = text::joined(e.machines, ","@);
    lemma_digits_no_space(e.at as nat);
    lemma_digits_no_space(e.credits as nat);
    lemma_digits_no_space(e.minutes as nat);
    text::lemma_decimal_reads_back(e.at as nat);
    text::lemma_decimal_reads_back(e.credits as nat);
    text::lemma_decimal_reads_back(e.minutes as nat);
    assert(text::no_space(names)) by {
        assert forall|i: int| 0 <= i < e.machines.len() implies text::no_space(
            #[trigger] e.machines[i],
        ) by {}
        text::lemma_joined_no_space(e.machines, ","@);
    }
    let none = Seq::<Seq<char>>::empty();
    // From the end of the line backwards.
    assert(text::words_of(tail(e, 0)) =~= none) by {
        assert(tail(e, 0) =~= seq!['\n'] + Seq::<char>::empty());
        text::lemma_words_skip('\n', Seq::empty());
        assert(text::trim_start_of(Seq::<char>::empty()) =~= Seq::<char>::empty());
        assert(text::words_of(Seq::<char>::empty()) =~= none);
    }
    let last = if names.len() > 0 {
        seq![names]
    } else {
        none
    };
    assert(text::words_of(tail(e, 1)) == last) by {
        text::lemma_words_skip(' ', names + tail(e, 0));
        if names.len() > 0 {
            text::lemma_words_head(names, tail(e, 0));
            assert(seq![names] + none =~= seq![names]);
        } else {
            assert(names + tail(e, 0) =~= tail(e, 0));
        }
    }
    let minutes = text::decimal_of(e.minutes as nat);
    assert(text::words_of(tail(e, 2)) == seq![minutes] + last) by {
        text::lemma_words_skip(' ', minutes + tail(e, 1));
        text::lemma_words_head(minutes, tail(e, 1));
    }
    assert(text::words_of(tail(e, 3)) == seq![e.reservation] + (seq![minutes] + last)) by {
        text::lemma_words_skip(' ', e.reservation + tail(e, 2));
        text::lemma_words_head(e.reservation, tail(e, 2));
    }
    let credits = text::decimal_of(e.credits as nat);
    assert(text::words_of(tail(e, 4)) == seq![credits] + (seq![e.reservation] + (seq![minutes]
        + last))) by {
        text::lemma_words_skip(' ', credits + tail(e, 3));
        text::lemma_words_head(credits, tail(e, 3));
    }
    let at = text::decimal_of(e.at as nat);
    text::lemma_words_head(at, tail(e, 4));
    let words = text::words_of(e.line());
    assert(words =~= seq![at, credits, e.reservation, minutes] + last);
    if e.machines.len() > 0 {
        assert forall|i: int| 0 <= i < e.machines.len() implies text::lacks(
            #[trigger] e.machines[i],
            ',',
        ) by {}
        text::lemma_pieces_of_joined(e.machines, ',', ","@);
        if names.len() == 0 {
            // One empty name is all that joins to nothing.
            assert(text::pieces(names, ',') =~= seq![names]);
            assert(e.machines.len() == 1);
        }
        assert(words[4] == names);
    } else {
        assert(names.len() == 0);
        assert(e.machines =~= none);
    }
    assert(entry_of(e.line())->Some_0 =~= e);
}

/// Appending an entry to a ledger adds that entry to what the ledger says, and changes
/// nothing else of it.
pub proof fn law_a_ledger_gives_back_what_was_recorded(
    ledger: Seq<char>,
    e: EntryView,
    from: u64,
)
    requires
        text::whole_lines(ledger),
        e.writable(),
    ensures
        text::whole_lines(ledger + e.line()),
        entries_of(text::lines_of(ledger + e.line()), from) == entries_of(
            text::lines_of(ledger),
            from,
        ) + if e.at >= from {
            seq![e]
        } else {
            Seq::<EntryView>::empty()
        },
{
    law_an_entry_round_trips(e);
    lemma_line_is_tail(e);
    text::lemma_lines_append(ledger, e.line());
    reveal_strlit("\n");
    let line = e.line().drop_last();
    assert(e.line() =~= line + seq!['\n']);
    lemma_line_stays_one(e);
    text::lemma_one_line(line);
    lemma_break_says_nothing(line);
    let lines = text::lines_of(ledger);
    assert((lines + seq![line]).drop_last() =~= lines);
    assert((lines + seq![line]).last() == line);
    let before = entries_of(lines, from);
    assert(before + seq![e] =~= before.push(e));
    assert(before + Seq::<EntryView>::empty() =~= before);
}

/// No line break stands inside an entry's line.
proof fn lemma_line_stays_one(e: EntryView)
    requires
        e.writable(),
    ensures
        text::lacks(e.line().drop_last(), '\n'),
        text::lacks(e.line().drop_last(), '\r'),
{
    reveal_strlit(",");
    reveal_strlit(" ");
    reveal_strlit("\n");
    lemma_digits_no_space(e.at as nat);
    lemma_digits_no_space(e.credits as nat);
    lemma_digits_no_space(e.minutes as nat);
    assert forall|i: int| 0 <= i < e.machines.len() implies text::no_space(
        #[trigger] e.machines[i],
    ) by {}
    text::lemma_joined_no_space(e.machines, ","@);
    let a = text::decimal_of(e.at as nat);
    let b = text::decimal_of(e.credits as nat);
    let c = text::decimal_of(e.minutes as nat);
    let d = text::joined(e.machines, ","@);
    let line = e.line().drop_last();
    assert(line =~= a + " "@ + b + " "@ + e.reservation + " "@ + c + " "@ + d);
    assert forall|i: int| 0 <= i < line.len() implies #[trigger] line[i] != '\n' && line[i]
        != '\r' by {
        let c1 = a.len() as int;
        let c2 = c1 + 1 + b.len();
        let c3 = c2 + 1 + e.reservation.len();
        let c4 = c3 + 1 + c.len();
        if i < c1 {
            assert(line[i] == a[i]);
        } else if i == c1 || i == c2 || i == c3 || i == c4 {
            assert(line[i] == ' ');
        } else if i < c2 {
            assert(line[i] == b[i - c1 - 1]);
        } else if i < c3 {
            assert(line[i] == e.reservation[i - c2 - 1]);
        } else if i < c4 {
            assert(line[i] == c[i - c3 - 1]);
        } else {
            assert(line[i] == d[i - c4 - 1]);
        }
    }
}

/// A line says the same with its line break and without it.
proof fn lemma_break_says_nothing(line: Seq<char>)
    ensures
        entry_of(line + seq!['\n']) == entry_of(line),
{
    lemma_words_break(line);
}

proof fn lemma_words_break(s: Seq<char>)
    ensures
        text::words_of(s + seq!['\n']) == text::words_of(s),
    decreases s.len(),
{
    let more = s + seq!['\n'];
    if s.len() == 0 {
        assert(more =~= seq!['\n'] + Seq::<char>::empty());
        assert(s =~= Seq::<char>::empty());
        text::lemma_words_skip('\n', Seq::empty());
    } else if text::is_space(s[0]) {
        let rest = s.drop_first();
        lemma_words_break(rest);
        assert(more =~= seq![s[0]] + (rest + seq!['\n']));
        assert(s =~= seq![s[0]] + rest);
        text::lemma_words_skip(s[0], rest + seq!['\n']);
        text::lemma_words_skip(s[0], rest);
    } else {
        text::lemma_word_len(s);
        let k = text::word_len(s);
        let word = s.take(k);
        let rest = s.skip(k);
        assert(k > 0);
        assert(s =~= word + rest);
        assert(more =~= word + (rest + seq!['\n']));
        assert forall|i: int| 0 <= i < word.len() implies !text::is_space(#[trigger] word[i]) by {
            assert(word[i] == s[i]);
        }
        lemma_words_break(rest);
        text::lemma_words_head(word, rest);
        text::lemma_words_head(word, rest + seq!['\n']);
    }
}

/// Being over budget reads as nothing left, not as plenty.
pub proof fn law_an_overrun_budget_has_nothing_left(room: Room)
    requires
        room.spent + room.committed >= room.budget,
    ensures
        room.remaining() == 0,
{
}

/// Prices only grow with the number of machines.
pub proof fn lemma_price_grows(rates: Seq<u32>, fewer: int, more: int, minutes: nat)
    requires
        0 <= fewer <= more <= rates.len(),
    ensures
        price(rates, fewer, minutes) <= price(rates, more, minutes),
    decreases more - fewer,
{
    if fewer < more {
        lemma_price_grows(rates, fewer, more - 1, minutes);
        assert(rates.take(more).drop_last() =~= rates.take(more - 1));
        let a = total(rates.take(more - 1));
        let b = total(rates.take(more));
        assert(a * minutes <= b * minutes) by (nonlinear_arith)
            requires
                a <= b,
        ;
    }
}

/// Granting no more machines than are affordable keeps a tenant inside its budget, even if
/// nobody releases them: what is spent and what is committed do not exceed it.
pub proof fn law_an_affordable_grant_stays_within_budget(
    f: fleet::FleetView,
    wanted: Seq<Seq<char>>,
    count: nat,
    names: Seq<Seq<char>>,
    rates: Seq<u32>,
    room: Room,
    affordable: u32,
    caller: Seq<char>,
    alias: Seq<char>,
    tenant: Seq<char>,
    lifetime: u64,
    at: u64,
)
    requires
        f.wf(),
        f.chosen(wanted, count) == fleet::Chosen::Machines(names),
        rates == f.ranking(wanted).map_values(|n: Seq<char>| f.workers[n].rate),
        room.committed == f.committed(tenant),
        room.spent + room.committed <= room.budget,
        room.buys(rates, lifetime, affordable),
        count <= affordable,
    ensures
        room.spent + f.granted(
            names,
            caller,
            alias,
            tenant,
            fleet::lasting(lifetime) as nat,
            at,
        ).committed(tenant) <= room.budget,
{
    let lasting = fleet::lasting(lifetime) as nat;
    let g = f.granted(names, caller, alias, tenant, lasting, at);
    let r = g.reservations[fleet::reservation_id(g.issued)];
    crate::holding::law_a_grant_is_committed_before_it_is_spent(
        f,
        names,
        caller,
        alias,
        tenant,
        lasting,
        at,
        tenant,
    );
    crate::holding::law_the_rates_of_a_brief_add_up_to_the_price(f, wanted, count, names, rates);
    let span = fleet::minutes_held(0, lifetime as nat);
    lemma_price_grows(rates, count as int, affordable as int, span);
    let minutes = fleet::minutes_held(at as nat, r.expires_at as nat);
    assert(minutes <= span);
    let whole = total(rates.take(count as int));
    assert(r.rate as nat <= whole);
    assert(minutes * r.rate as nat <= whole * span) by (nonlinear_arith)
        requires
            minutes <= span,
            r.rate as nat <= whole,
    ;
}

// ---------------------------------------------------------------------------
// what a budget counts
// ---------------------------------------------------------------------------

/// A window of so many seconds ends now, and begins that many seconds before: at the
/// beginning of time where it is longer than that.
pub proof fn law_a_window_is_as_long_as_it_says(now: u64, window: u64)
    ensures
        now >= window ==> window_start(now, window) + window == now,
        now <= window ==> window_start(now, window) == 0,
{
}

/// An entry counts exactly while the window holds it: what was recorded adds its credits
/// where no more than `window` seconds have passed since, and nothing where more have. A
/// ledger nobody wrote in says that nothing was spent.
pub proof fn law_what_was_spent_counts_until_the_window_has_passed(
    ledger: Seq<char>,
    e: EntryView,
    now: u64,
    window: u64,
)
    requires
        text::whole_lines(ledger),
        e.writable(),
    ensures
        spent_of(Seq::empty(), now, window) == 0,
        spent_of(ledger + e.line(), now, window) == spent_of(ledger, now, window) + (if e.at
            + window >= now {
            e.credits as nat
        } else {
            0
        }),
{
    let from = window_start(now, window);
    law_a_ledger_gives_back_what_was_recorded(ledger, e, from);
    law_a_window_is_as_long_as_it_says(now, window);
    let before = entries_of(text::lines_of(ledger), from);
    assert(before + Seq::<EntryView>::empty() =~= before);
    assert((before + seq![e]).drop_last() =~= before);
    if e.at >= from {
        assert(entries_of(text::lines_of(ledger + e.line()), from) == before + seq![e]);
    }
}

/// Every entry that a ledger's lines hold is told, in order, where it is not older than asked
/// for; and nothing else is told.
pub proof fn law_a_ledger_tells_what_is_recent_and_nothing_else(
    lines: Seq<Seq<char>>,
    line: Seq<char>,
    from: u64,
)
    ensures
        entries_of(lines.push(line), from) == match entry_of(line) {
            Some(e) => if e.at >= from {
                entries_of(lines, from).push(e)
            } else {
                entries_of(lines, from)
            },
            None => entries_of(lines, from),
        },
        forall|i: int|
            0 <= i < entries_of(lines, from).len() ==> (#[trigger] entries_of(lines, from)[i]).at
                >= from,
    decreases lines.len(),
{
    assert(lines.push(line).drop_last() =~= lines);
    if lines.len() > 0 {
        law_a_ledger_tells_what_is_recent_and_nothing_else(lines.drop_last(), line, from);
        let less = entries_of(lines.drop_last(), from);
        assert forall|i: int| 0 <= i < entries_of(lines, from).len() implies (
        #[trigger] entries_of(lines, from)[i]).at >= from by {
            if i < less.len() {
                assert(less[i].at >= from);
            }
        }
    }
}

/// What is left is the budget without what is spent and without what is committed.
pub proof fn law_what_is_left_is_neither_spent_nor_committed(room: Room)
    ensures
        room.spent + room.committed <= room.budget ==> room.remaining() + room.spent
            + room.committed == room.budget,
        room.spent + room.committed >= room.budget ==> room.remaining() == 0,
{
}

/// Machines that are afforded can be paid for at their own rates over every minute begun of a
/// lifetime, and one machine more could not.
pub proof fn law_what_is_afforded_fits_and_one_more_does_not(
    room: Room,
    rates: Seq<u32>,
    lifetime: u64,
    minutes: nat,
)
    requires
        lifetime > 0,
        60 * minutes >= lifetime > 60 * (minutes - 1),
    ensures
        room.affords(rates, lifetime) <= rates.len(),
        ({
            let n = room.affords(rates, lifetime) as int;
            let left = if room.spent + room.committed < room.budget {
                room.budget - room.spent - room.committed
            } else {
                0
            };
            let sum = |sum: nat, rate: u32| sum + rate as nat;
            &&& rates.take(n).fold_left(0nat, sum) * minutes <= left
            &&& n < rates.len() && n < u32::MAX ==> rates.take(n + 1).fold_left(0nat, sum) * minutes
                > left
        }),
{
    room.lemma_some_are_afforded(rates, lifetime);
    crate::holding::law_every_minute_begun_is_charged(0, lifetime as nat, minutes);
    let n = room.affords(rates, lifetime) as int;
    lemma_total_is_a_fold(rates.take(n));
    if n < rates.len() {
        lemma_total_is_a_fold(rates.take(n + 1));
    }
}

proof fn lemma_total_is_a_fold(rates: Seq<u32>)
    ensures
        total(rates) == rates.fold_left(0nat, |sum: nat, rate: u32| sum + rate as nat),
    decreases rates.len(),
{
    if rates.len() > 0 {
        lemma_total_is_a_fold(rates.drop_last());
    }
}

/// A line of the ledger is when, how much, what for, how long and on which machines, with a
/// space between any two and a comma between machines.
pub proof fn law_a_line_says_when_how_much_and_what_for(e: EntryView)
    ensures
        e.line() == text::decimal_of(e.at as nat) + " "@ + text::decimal_of(e.credits as nat)
            + " "@ + e.reservation + " "@ + text::decimal_of(e.minutes as nat) + " "@
            + text::joined(e.machines, ","@) + "\n"@,
{
}

/// A line that begins with two numbers counts, whatever is missing behind them; any other is
/// skipped, and takes nothing else with it.
pub proof fn law_a_short_line_still_counts(
    at: u64,
    credits: u64,
    word: Seq<char>,
    lines: Seq<Seq<char>>,
    line: Seq<char>,
    from: u64,
)
    requires
        word.len() > 0,
        text::no_space(word),
    ensures
        entry_of(text::decimal_of(at as nat) + " "@ + text::decimal_of(credits as nat)) == Some(
            EntryView { at, credits, reservation: "?"@, minutes: 0, machines: Seq::empty() },
        ),
        entry_of(word) is None,
        entry_of(line) is None ==> entries_of(lines.push(line), from) == entries_of(lines, from),
        entry_of(line) matches Some(e) ==> entries_of(lines.push(line), from) == (if e.at >= from {
            entries_of(lines, from).push(e)
        } else {
            entries_of(lines, from)
        }),
{
    reveal_strlit(" ");
    assert(lines.push(line).drop_last() =~= lines);
    let a = text::decimal_of(at as nat);
    let b = text::decimal_of(credits as nat);
    lemma_digits_no_space(at as nat);
    lemma_digits_no_space(credits as nat);
    text::lemma_decimal_reads_back(at as nat);
    text::lemma_decimal_reads_back(credits as nat);
    let none = Seq::<char>::empty();
    assert(text::trim_start_of(none) == none);
    assert(text::words_of(none) =~= Seq::<Seq<char>>::empty());
    assert(b + none =~= b);
    text::lemma_words_head(b, none);
    assert(text::words_of(b) =~= seq![b]);
    text::lemma_words_skip(' ', b);
    assert(seq![' '] + b =~= " "@ + b);
    text::lemma_words_head(a, " "@ + b);
    assert(a + (" "@ + b) =~= a + " "@ + b);
    assert(text::words_of(a + " "@ + b) =~= seq![a, b]);
    assert(word + none =~= word);
    text::lemma_words_head(word, none);
    assert(text::words_of(word) =~= seq![word]);
}

} // verus!
