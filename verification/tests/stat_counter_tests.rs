use crooked_earth::stat_counter::{
    stat_count_events_for_items, stat_counter_get_all, stat_counter_increment, text_order,
    StatCounterStore, StatCounterVal,
};

fn report(store: &StatCounterStore, now: u64) -> Vec<(String, String, String, String, u64)> {
    stat_counter_get_all(store, now)
        .into_iter()
        .map(|(k, e, c)| (k.stat_type, k.item_a, k.item_b, e, c))
        .collect()
}

fn row(t: &str, a: &str, b: &str, e: &str, c: u64) -> (String, String, String, String, u64) {
    (t.to_string(), a.to_string(), b.to_string(), e.to_string(), c)
}

#[test]
fn events_are_counted_per_key() {
    let mut store = StatCounterStore::new();
    stat_counter_increment(&mut store, "t", "success", "a", "b", 10);
    stat_counter_increment(&mut store, "t", "success", "a", "b", 11);
    stat_counter_increment(&mut store, "t", "fail", "a", "b", 12);
    stat_counter_increment(&mut store, "t", "success", "a", "c", 13);
    assert_eq!(store.len(), 2);
    assert_eq!(report(&store, 13), vec![
        row("t", "a", "b", "fail", 1),
        row("t", "a", "b", "success", 2),
        row("t", "a", "c", "success", 1),
    ]);
}

#[test]
fn report_is_sorted_by_key_event_and_count() {
    let mut store = StatCounterStore::new();
    stat_counter_increment(&mut store, "z", "e", "a", "a", 1);
    stat_counter_increment(&mut store, "b", "e", "b", "a", 1);
    stat_counter_increment(&mut store, "b", "e", "a", "b", 1);
    stat_counter_increment(&mut store, "b", "e", "a", "ab", 1);
    stat_counter_increment(&mut store, "b", "d", "a", "ab", 1);
    stat_counter_increment(&mut store, "", "e", "a", "a", 1);
    let rows = report(&store, 1);
    let mut sorted = rows.clone();
    sorted.sort();
    assert_eq!(rows, sorted);
    assert_eq!(rows, vec![
        row("", "a", "a", "e", 1),
        row("b", "a", "ab", "d", 1),
        row("b", "a", "ab", "e", 1),
        row("b", "a", "b", "e", 1),
        row("b", "b", "a", "e", 1),
        row("z", "a", "a", "e", 1),
    ]);
}

#[test]
fn expired_counters_are_not_reported() {
    let mut store = StatCounterStore::new();
    stat_counter_increment(&mut store, "t", "e", "old", "b", 1_000);
    stat_counter_increment(&mut store, "t", "e", "new", "b", 5_000);
    assert_eq!(report(&store, 1_000 + 7_200_000).len(), 2);
    assert_eq!(report(&store, 1_000 + 7_200_001), vec![row("t", "new", "b", "e", 1)]);
    stat_counter_increment(&mut store, "t", "e", "old", "b", 7_300_000);
    assert_eq!(report(&store, 5_000 + 7_200_001), vec![row("t", "old", "b", "e", 2)]);
    assert!(report(&store, u64::MAX).is_empty());
}

#[test]
fn counter_value_counts_events_in_order_of_first_use() {
    let mut val = StatCounterVal::new(5);
    assert!(val.event_count.is_empty());
    val.increment("b", 6);
    val.increment("a", 7);
    val.increment("b", 8);
    assert_eq!(val.event_count, vec![("b".to_string(), 2), ("a".to_string(), 1)]);
    assert_eq!(val.edit_at, 8);
    val.event_count[0].1 = u64::MAX;
    val.increment("b", 9);
    assert_eq!(val.event_count[0].1, u64::MAX);
}

#[test]
fn events_are_summed_for_each_item() {
    let mut store = StatCounterStore::new();
    for _ in 0..3 {
        stat_counter_increment(&mut store, "by_addr", "success", "p1", "d1", 1);
    }
    stat_counter_increment(&mut store, "by_addr", "fail", "p1", "d1", 1);
    stat_counter_increment(&mut store, "by_addr", "success", "p1", "d2", 1);
    stat_counter_increment(&mut store, "by_addr", "fail", "p2", "d1", 1);
    stat_counter_increment(&mut store, "by_cat", "success", "d1", "p1", 1);
    let counts = stat_count_events_for_items(&store, &vec!["p1", "p2", "nobody", "d1"], 1);
    assert_eq!(counts.len(), 4);
    let sorted = |mut v: Vec<(String, u64)>| {
        v.sort();
        v
    };
    assert_eq!(counts[0].0, "p1");
    assert_eq!(sorted(counts[0].1.clone()), vec![("fail".to_string(), 1), ("success".to_string(), 5)]);
    assert_eq!(counts[1].0, "p2");
    assert_eq!(counts[1].1, vec![("fail".to_string(), 1)]);
    assert_eq!(counts[2].0, "nobody");
    assert!(counts[2].1.is_empty());
    assert_eq!(counts[3].0, "d1");
    assert_eq!(sorted(counts[3].1.clone()), vec![("fail".to_string(), 2), ("success".to_string(), 4)]);
}

#[test]
fn expired_counters_are_not_summed() {
    let mut store = StatCounterStore::new();
    stat_counter_increment(&mut store, "t", "success", "p1", "d1", 0);
    let counts = stat_count_events_for_items(&store, &vec!["p1"], 7_200_001);
    assert!(counts[0].1.is_empty());
}

#[test]
fn texts_are_ordered_character_by_character() {
    assert_eq!(text_order("", ""), 0);
    assert_eq!(text_order("", "a"), -1);
    assert_eq!(text_order("a", ""), 1);
    assert_eq!(text_order("abc", "abd"), -1);
    assert_eq!(text_order("ab", "abc"), -1);
    assert_eq!(text_order("b", "abc"), 1);
    assert_eq!(text_order("same", "same"), 0);
    assert_eq!(text_order("z", "é"), -1);
    for (a, b) in [("a", "b"), ("é", "z"), ("10", "9"), ("", "x"), ("ab", "ab")] {
        let expected = match a.cmp(b) {
            std::cmp::Ordering::Less => -1,
            std::cmp::Ordering::Equal => 0,
            std::cmp::Ordering::Greater => 1,
        };
        assert_eq!(text_order(a, b), expected);
    }
}
