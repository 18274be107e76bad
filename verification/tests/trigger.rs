use desk::risk::types::PositionSide;
use desk::trigger::{
    closes_side, firing_margin_atoms, needs_reinjection, PendingTrigger, TriggerBook, TriggerWhen,
};

fn t(id: i64, trigger: i64) -> PendingTrigger {
    PendingTrigger {
        id,
        user_id: 1,
        side: 1,
        is_market: true,
        trigger_price_ticks: trigger,
        price_ticks: None,
        qty_lots: 10,
    }
}

#[test]
fn falling_fires_at_or_below_trigger_only() {
    let mut book = TriggerBook::default();
    for (id, trig) in [(1, 4_900_000), (2, 4_950_000), (3, 4_800_000)] {
        book.insert(TriggerWhen::Falling, t(id, trig));
    }
    // The mark drops to 4_900_000: the triggers at 4_900_000 and 4_950_000
    // are touched, the one at 4_800_000 stays armed.
    let fired = book.due(4_900_000);
    let mut ids: Vec<i64> = fired.iter().map(|x| x.id).collect();
    ids.sort_unstable();
    assert_eq!(ids, vec![1, 2]);
    assert_eq!(book.len(), 1, "deep trigger still armed");
    let fired = book.due(4_800_000);
    assert_eq!(fired.len(), 1);
    assert!(book.is_empty());
}

#[test]
fn rising_fires_at_or_above_trigger_only() {
    let mut book = TriggerBook::default();
    book.insert(TriggerWhen::Rising, t(1, 5_100_000));
    book.insert(TriggerWhen::Rising, t(2, 5_200_000));
    assert!(book.due(5_099_999).is_empty(), "below both");
    let fired = book.due(5_100_000);
    assert_eq!(fired.len(), 1, "touch fires");
    assert_eq!(fired[0].id, 1);
    let fired = book.due(5_300_000);
    assert_eq!(fired.len(), 1, "cross fires the rest");
}

#[test]
fn cancel_removes_without_firing() {
    let mut book = TriggerBook::default();
    book.insert(TriggerWhen::Falling, t(1, 4_900_000));
    assert!(book.remove(TriggerWhen::Falling, 4_900_000, 1));
    assert!(!book.remove(TriggerWhen::Falling, 4_900_000, 1), "second cancel is a no-op");
    assert!(book.due(0).is_empty(), "cancelled trigger never fires");
}

#[test]
fn storm_extraction_is_not_linear_per_tick() {
    let mut book = TriggerBook::default();
    for id in 0..100_000 {
        book.insert(TriggerWhen::Falling, t(id, 1_000_000 + id));
    }
    let start = std::time::Instant::now();
    for mark in 6_000_000..6_010_000 {
        assert!(book.due(mark).is_empty());
    }
    assert!(
        start.elapsed() < std::time::Duration::from_millis(200),
        "10k non-crossing ticks over 100k triggers took {:?}",
        start.elapsed()
    );
    // A single crossing tick fires all of them exactly once.
    let fired = book.due(0);
    assert_eq!(fired.len(), 100_000);
    assert!(book.is_empty());
}

#[test]
fn recovery_truth_table() {
    assert!(needs_reinjection(false, false), "no footprint: inject again");
    assert!(!needs_reinjection(true, false), "orders row: already injected");
    assert!(!needs_reinjection(false, true), "matching event: already injected");
    assert!(!needs_reinjection(true, true));
}

#[test]
fn default_arming_matches_stop_semantics() {
    assert_eq!(TriggerWhen::default_for_side(0), TriggerWhen::Rising, "buy-stop");
    assert_eq!(TriggerWhen::default_for_side(1), TriggerWhen::Falling, "sell-stop");
}

#[test]
fn direction_names_read_back() {
    for when in [TriggerWhen::Rising, TriggerWhen::Falling] {
        assert_eq!(TriggerWhen::from_db_str(when.as_db_str()), Some(when));
    }
    assert_eq!(TriggerWhen::Rising.as_db_str(), "rising");
    assert_eq!(TriggerWhen::Falling.as_db_str(), "falling");
    assert_eq!(TriggerWhen::from_db_str("sideways"), None);
}

#[test]
fn a_trigger_armed_twice_is_held_once() {
    let mut book = TriggerBook::default();
    book.insert(TriggerWhen::Rising, t(1, 100));
    book.insert(TriggerWhen::Rising, t(1, 100));
    assert_eq!(book.len(), 1);
}

#[test]
fn firing_reserves_the_initial_margin() {
    // 0.1 BTC at $50,000, ten times: $500.
    assert_eq!(firing_margin_atoms(5_000_000, 100_000, 1_000_000, 10), 50_000_000_000);
    assert_eq!(closes_side(0), PositionSide::Short);
    assert_eq!(closes_side(1), PositionSide::Long);
}

#[test]
fn simultaneous_triggers_come_out_by_price_and_id() {
    let mut book = TriggerBook::default();
    for (id, trig) in [(3, 100), (1, 100), (2, 90), (4, 200)] {
        book.insert(TriggerWhen::Rising, t(id, trig));
    }
    for (id, trig) in [(8, 120), (6, 110), (7, 110), (9, 50)] {
        book.insert(TriggerWhen::Falling, t(id, trig));
    }
    let ids: Vec<i64> = book.due(100).iter().map(|x| x.id).collect();
    assert_eq!(ids, vec![3, 1, 2, 6, 7, 8], "from below highest first, then from above lowest first");
    assert_eq!(book.len(), 2);
    assert!(book.due(100).is_empty(), "the same mark fires nothing more");
    assert!(book.remove(TriggerWhen::Rising, 200, 4));
    assert!(book.remove(TriggerWhen::Falling, 50, 9));
    assert!(book.is_empty());
}

#[test]
fn marks_at_the_edge_of_the_range_fire_everything() {
    let mut book = TriggerBook::default();
    book.insert(TriggerWhen::Rising, t(1, i64::MAX));
    book.insert(TriggerWhen::Falling, t(2, i64::MIN));
    assert!(book.due(0).is_empty());
    assert_eq!(book.due(i64::MAX)[0].id, 1);
    assert_eq!(book.due(i64::MIN)[0].id, 2);
    assert!(book.is_empty());
}
