use cyberium::budget::{entries_since, path_in, spent, Entry, Room, WINDOW_SECS};

fn entry(at: u64, credits: u64) -> Entry {
    Entry { at, credits, reservation: format!("r{at}"), minutes: 1, machines: vec!["w1".into()] }
}

/// A ledger with these lines appended one after the other.
fn ledger(entries: &[Entry]) -> String {
    let mut text = String::new();
    for e in entries {
        text.push_str(&e.line());
    }
    text
}

#[test]
fn budget_it_round_trips() {
    let e = Entry {
        at: 1786968121,
        credits: 108,
        reservation: "r7".into(),
        minutes: 12,
        machines: vec!["cm-w-1".into(), "cm-w-3".into()],
    };
    assert_eq!(entries_since(&ledger(&[e.clone()]), 0), vec![e]);
}

#[test]
fn a_missing_ledger_is_no_spend_not_an_error() {
    // A tenant that has never run anything must not be refused for it.
    assert_eq!(spent("", 1_000_000, WINDOW_SECS), 0);
}

#[test]
fn the_window_rolls() {
    let now = 1_000_000u64;
    let text = ledger(&[entry(now - 100, 10), entry(now - WINDOW_SECS - 5, 999)]);
    assert_eq!(spent(&text, now, WINDOW_SECS), 10);
}

#[test]
fn a_line_we_cannot_read_is_skipped_not_fatal() {
    let mut text = ledger(&[entry(500, 7)]);
    text.push_str("oops not a line\n");
    assert_eq!(spent(&text, 1000, WINDOW_SECS), 7);
}

#[test]
fn room_counts_commitments_not_only_spend() {
    let room = Room { budget: 1000, spent: 200, committed: 700 };
    assert_eq!(room.left(), 100);

    let optimistic = Room { budget: 1000, spent: 200, committed: 0 };
    assert_eq!(optimistic.left(), 800);
}

#[test]
fn being_over_budget_reads_as_zero_not_as_plenty() {
    let room = Room { budget: 100, spent: 500, committed: 0 };
    assert_eq!(room.left(), 0);
    assert_eq!(room.affordable(&[1, 1, 1, 1], 600), 0);
}

#[test]
fn affordable_is_worst_case() {
    // 600s is 10 minutes; at 5 credits a minute each machine could cost 50, so 120
    // credits buys two and not three.
    let room = Room { budget: 120, spent: 0, committed: 0 };
    assert_eq!(room.affordable(&[5, 5, 5], 600), 2);
    assert_eq!(room.affordable(&[5], 600), 1);
    // And never more than was offered.
    assert_eq!(room.affordable(&[1, 1], 60), 2);
}

#[test]
fn machines_are_priced_individually_not_averaged() {
    let room = Room { budget: 40, spent: 0, committed: 0 };
    assert_eq!(room.affordable(&[1, 2, 8], 600), 2);

    let plenty = Room { budget: 110, spent: 0, committed: 0 };
    assert_eq!(plenty.affordable(&[1, 2, 8], 600), 3);
}

#[test]
fn a_ledger_line_is_words_anybody_can_read() {
    let e = Entry {
        at: 1786968121,
        credits: 108,
        reservation: "r7".into(),
        minutes: 12,
        machines: vec!["cm-w-1".into(), "cm-w-3".into()],
    };
    assert_eq!(e.line(), "1786968121 108 r7 12 cm-w-1,cm-w-3\n");
    assert_eq!(Entry::parse(&e.line()), Some(e));
    assert_eq!(Entry::parse("oops not a line"), None);
    assert_eq!(path_in("/srv/tenants/payments"), "/srv/tenants/payments/spend.log");
}

#[test]
fn a_part_minute_is_priced_as_a_minute_ahead_of_time_too() {
    // 61 seconds is two minutes, so 5 credits buys two machines at 1 and not three.
    let room = Room { budget: 5, spent: 0, committed: 0 };
    assert_eq!(room.affordable(&[1, 1, 1], 61), 2);
}
