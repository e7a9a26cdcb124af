//! Statistics counters: how often each event happened for a pair of items
//! under a kind of statistic, kept until nothing was counted for a while.

use vstd::prelude::*;
use vstd::seq_lib::*;
use vstd::string::*;

verus! {

/// Time after its last count when a counter is no longer reported, in
/// milliseconds.
pub const STAT_COUNTER_ENTRY_TTL_MS: u64 = 7_200_000;

/// What is counted: a kind of statistic and the two items it is about.
#[derive(Debug)]
pub struct StatCounterKey {
    pub stat_type: String,
    pub item_a: String,
    pub item_b: String,
}

/// The counts under one key: how often each event happened, and when the
/// last one was counted, in milliseconds.
#[derive(Debug)]
pub struct StatCounterVal {
    pub event_count: Vec<(String, u64)>,
    pub edit_at: u64,
}

/// A key as a value.
pub struct StatKeyView {
    pub stat_type: Seq<char>,
    pub item_a: Seq<char>,
    pub item_b: Seq<char>,
}

/// The counts under one key as a value: the events in the order in which
/// they were first counted.
pub struct StatValView {
    pub events: Seq<(Seq<char>, u64)>,
    pub edit_at: u64,
}

/// One line of the report: a key, an event and its count.
pub struct StatRow {
    pub key: StatKeyView,
    pub event: Seq<char>,
    pub count: u64,
}

impl View for StatCounterKey {
    type V = StatKeyView;

    open spec fn view(&self) -> StatKeyView {
        StatKeyView { stat_type: self.stat_type@, item_a: self.item_a@, item_b: self.item_b@ }
    }
}

/// The events of a list of named counts as values.
pub open spec fn events_of(v: Seq<(String, u64)>) -> Seq<(Seq<char>, u64)> {
    Seq::new(v.len(), |i: int| (v[i].0@, v[i].1))
}

impl View for StatCounterVal {
    type V = StatValView;

    open spec fn view(&self) -> StatValView {
        StatValView { events: events_of(self.event_count@), edit_at: self.edit_at }
    }
}

/// The counters as values, in the order in which their keys were first
/// counted.
pub type StoreView = Seq<(StatKeyView, StatValView)>;

pub open spec fn store_of(v: Seq<(StatCounterKey, StatCounterVal)>) -> StoreView {
    Seq::new(v.len(), |i: int| (v[i].0@, v[i].1@))
}

/// The report lines of a list of rows as values.
pub open spec fn rows_of(v: Seq<(StatCounterKey, String, u64)>) -> Seq<StatRow> {
    Seq::new(v.len(), |i: int| StatRow { key: v[i].0@, event: v[i].1@, count: v[i].2 })
}

pub open spec fn has_event(events: Seq<(Seq<char>, u64)>, event: Seq<char>) -> bool {
    exists|j: int| 0 <= j < events.len() && (#[trigger] events[j]).0 == event
}

pub open spec fn event_position(events: Seq<(Seq<char>, u64)>, event: Seq<char>) -> int {
    choose|j: int| 0 <= j < events.len() && (#[trigger] events[j]).0 == event
}

pub open spec fn events_unique(events: Seq<(Seq<char>, u64)>) -> bool {
    forall|i: int, j: int|
        0 <= i < events.len() && 0 <= j < events.len() && i != j ==> (#[trigger] events[i]).0 != (
        #[trigger] events[j]).0
}

pub open spec fn has_key(store: StoreView, key: StatKeyView) -> bool {
    exists|i: int| 0 <= i < store.len() && (#[trigger] store[i]).0 == key
}

pub open spec fn key_position(store: StoreView, key: StatKeyView) -> int {
    choose|i: int| 0 <= i < store.len() && (#[trigger] store[i]).0 == key
}

pub open spec fn keys_unique(store: StoreView) -> bool {
    forall|i: int, j: int|
        0 <= i < store.len() && 0 <= j < store.len() && i != j ==> (#[trigger] store[i]).0 != (
        #[trigger] store[j]).0
}

/// One more event, as far as the counter goes.
pub open spec fn count_up(n: u64) -> u64 {
    if n < u64::MAX {
        (n + 1) as u64
    } else {
        u64::MAX
    }
}

/// The counts after one more `event` at time `now`.
pub open spec fn val_incremented(v: StatValView, event: Seq<char>, now: u64) -> StatValView {
    StatValView {
        events: if has_event(v.events, event) {
            let j = event_position(v.events, event);
            v.events.update(j, (event, count_up(v.events[j].1)))
        } else {
            v.events.push((event, 1))
        },
        edit_at: now,
    }
}

/// The counters after one more `event` under `key` at time `now`.
pub open spec fn store_incremented(
    store: StoreView,
    key: StatKeyView,
    event: Seq<char>,
    now: u64,
) -> StoreView {
    if has_key(store, key) {
        let i = key_position(store, key);
        store.update(i, (key, val_incremented(store[i].1, event, now)))
    } else {
        store.push(
            (key, val_incremented(StatValView { events: Seq::empty(), edit_at: now }, event, now)),
        )
    }
}

/// Counts that nothing was added to for longer than the time to live are
/// not reported.
pub open spec fn is_expired(v: StatValView, now: u64) -> bool {
    v.edit_at + STAT_COUNTER_ENTRY_TTL_MS < now
}

/// The report lines of one key, in the order of its events.
pub open spec fn rows_of_entry(key: StatKeyView, v: StatValView) -> Seq<StatRow> {
    Seq::new(v.events.len(), |j: int| StatRow { key, event: v.events[j].0, count: v.events[j].1 })
}

/// The report lines of all counters that are not expired, in the order of
/// the store.
pub open spec fn live_rows(store: StoreView, now: u64) -> Seq<StatRow>
    decreases store.len(),
{
    if store.len() == 0 {
        Seq::empty()
    } else if is_expired(store.last().1, now) {
        live_rows(store.drop_last(), now)
    } else {
        live_rows(store.drop_last(), now) + rows_of_entry(store.last().0, store.last().1)
    }
}

/// Order of two texts, character by character: negative where `a` comes
/// first, zero where they are the same, positive where `b` comes first. A
/// text comes before every text it is a proper beginning of.
pub open spec fn lex_order(a: Seq<char>, b: Seq<char>) -> int
    decreases a.len(),
{
    if a.len() == 0 {
        if b.len() == 0 {
            0
        } else {
            -1
        }
    } else if b.len() == 0 {
        1
    } else if (a[0] as u32) < (b[0] as u32) {
        -1
    } else if (a[0] as u32) > (b[0] as u32) {
        1
    } else {
        lex_order(a.drop_first(), b.drop_first())
    }
}

/// The first of two orders that decides.
pub open spec fn then_order(first: int, second: int) -> int {
    if first != 0 {
        first
    } else {
        second
    }
}

/// Order of two report lines: by kind of statistic, then by the first and
/// the second item, then by event, then by count.
pub open spec fn row_order(r: StatRow, s: StatRow) -> int {
    then_order(
        lex_order(r.key.stat_type, s.key.stat_type),
        then_order(
            lex_order(r.key.item_a, s.key.item_a),
            then_order(
                lex_order(r.key.item_b, s.key.item_b),
                then_order(
                    lex_order(r.event, s.event),
                    if r.count < s.count {
                        -1
                    } else if r.count > s.count {
                        1
                    } else {
                        0
                    },
                ),
            ),
        ),
    )
}

/// Every line comes no later than the line after it.
pub open spec fn rows_sorted(rows: Seq<StatRow>) -> bool {
    forall|i: int| 0 <= i < rows.len() - 1 ==> row_order(#[trigger] rows[i], rows[i + 1]) <= 0
}

/// The order of two texts turns round with them.
pub proof fn lemma_lex_order_flips(a: Seq<char>, b: Seq<char>)
    ensures
        lex_order(a, b) < 0 <==> lex_order(b, a) > 0,
        lex_order(a, b) == 0 <==> lex_order(b, a) == 0,
    decreases a.len(),
{
    if a.len() > 0 && b.len() > 0 && (a[0] as u32) == (b[0] as u32) {
        lemma_lex_order_flips(a.drop_first(), b.drop_first());
    }
}


/// The order of texts carries on: where `a` comes no later than `b` and
/// `b` no later than `c`, `a` comes no later than `c`, and earlier where
/// one of the two does.
pub proof fn lemma_lex_order_transitive(a: Seq<char>, b: Seq<char>, c: Seq<char>)
    ensures
        lex_order(a, b) <= 0 && lex_order(b, c) <= 0 ==> lex_order(a, c) <= 0,
        lex_order(a, b) < 0 && lex_order(b, c) <= 0 ==> lex_order(a, c) < 0,
        lex_order(a, b) <= 0 && lex_order(b, c) < 0 ==> lex_order(a, c) < 0,
        lex_order(a, b) == 0 && lex_order(b, c) == 0 ==> lex_order(a, c) == 0,
    decreases a.len(),
{
    if a.len() > 0 && b.len() > 0 && c.len() > 0 {
        lemma_lex_order_transitive(a.drop_first(), b.drop_first(), c.drop_first());
    }
}

/// The order of report lines carries on.
pub proof fn lemma_row_order_transitive(r: StatRow, s: StatRow, t: StatRow)
    requires
        row_order(r, s) <= 0,
        row_order(s, t) <= 0,
    ensures
        row_order(r, t) <= 0,
{
    lemma_lex_order_transitive(r.key.stat_type, s.key.stat_type, t.key.stat_type);
    lemma_lex_order_transitive(r.key.item_a, s.key.item_a, t.key.item_a);
    lemma_lex_order_transitive(r.key.item_b, s.key.item_b, t.key.item_b);
    lemma_lex_order_transitive(r.event, s.event, t.event);
}

/// In a sorted report every line comes no later than every line behind
/// it.
pub proof fn lemma_rows_sorted_pairwise(rows: Seq<StatRow>, i: int, j: int)
    requires
        rows_sorted(rows),
        0 <= i < j < rows.len(),
    ensures
        row_order(rows[i], rows[j]) <= 0,
    decreases j - i,
{
    if i + 1 < j {
        lemma_rows_sorted_pairwise(rows, i, j - 1);
        assert(row_order(rows[j - 1], rows[j - 1 + 1]) <= 0);
        lemma_row_order_transitive(rows[i], rows[j - 1], rows[j]);
    } else {
        assert(row_order(rows[i], rows[i + 1]) <= 0);
    }
}

/// The order of two report lines turns round with them.
pub proof fn lemma_row_order_flips(r: StatRow, s: StatRow)
    ensures
        row_order(r, s) > 0 ==> row_order(s, r) < 0,
{
    lemma_lex_order_flips(r.key.stat_type, s.key.stat_type);
    lemma_lex_order_flips(r.key.item_a, s.key.item_a);
    lemma_lex_order_flips(r.key.item_b, s.key.item_b);
    lemma_lex_order_flips(r.event, s.event);
}


/// The line is about `item` and counts `event`.
pub open spec fn row_matches(row: StatRow, item: Seq<char>, event: Seq<char>) -> bool {
    (row.key.item_a == item || row.key.item_b == item) && row.event == event
}

/// How often `event` was counted for `item` in all of `rows`.
pub open spec fn event_total(rows: Seq<StatRow>, item: Seq<char>, event: Seq<char>) -> nat
    decreases rows.len(),
{
    if rows.len() == 0 {
        0
    } else {
        event_total(rows.drop_last(), item, event) + if row_matches(rows.last(), item, event) {
            rows.last().count as nat
        } else {
            0
        }
    }
}

/// Some line is about `item` and counts `event`.
pub open spec fn event_seen(rows: Seq<StatRow>, item: Seq<char>, event: Seq<char>) -> bool {
    exists|k: int| 0 <= k < rows.len() && row_matches(#[trigger] rows[k], item, event)
}

/// The number as a count, or the largest count where it does not fit.
pub open spec fn clamp(n: nat) -> u64 {
    if n > u64::MAX {
        u64::MAX
    } else {
        n as u64
    }
}

/// `totals` holds, for `item`, each event that `rows` count for it, once,
/// with the sum of its counts.
pub open spec fn is_item_totals(
    totals: Seq<(Seq<char>, u64)>,
    rows: Seq<StatRow>,
    item: Seq<char>,
) -> bool {
    &&& events_unique(totals)
    &&& forall|j: int|
        0 <= j < totals.len() ==> event_seen(rows, item, (#[trigger] totals[j]).0) && totals[j].1
            == clamp(event_total(rows, item, totals[j].0))
    &&& forall|k: int|
        0 <= k < rows.len() && (rows[k].key.item_a == item || rows[k].key.item_b == item)
            ==> has_event(totals, (#[trigger] rows[k]).event)
}

/// The statistics counters, keyed by `StatCounterKey`.
pub struct StatCounterStore {
    entries: Vec<(StatCounterKey, StatCounterVal)>,
}

impl View for StatCounterStore {
    type V = StoreView;

    closed spec fn view(&self) -> StoreView {
        store_of(self.entries@)
    }
}

impl StatCounterKey {
    /// A copy of the key.
    pub fn clone_key(&self) -> (copy: StatCounterKey)
        ensures
            copy@ == self@,
    {
        StatCounterKey {
            stat_type: self.stat_type.clone(),
            item_a: self.item_a.clone(),
            item_b: self.item_b.clone(),
        }
    }

    /// Whether two keys are the same.
    pub fn same_as(&self, other: &StatCounterKey) -> (same: bool)
        ensures
            same == (self@ == other@),
    {
        self.stat_type == other.stat_type && self.item_a == other.item_a && self.item_b
            == other.item_b
    }
}

/// Where `event` stands in a list of named counts, if it does.
fn find_event(events: &Vec<(String, u64)>, event: &String) -> (at: Option<usize>)
    ensures
        at matches Some(j) ==> j < events@.len() && events_of(events@)[j as int].0 == event@,
        at is None ==> !has_event(events_of(events@), event@),
{
    let mut j: usize = 0;
    while j < events.len()
        invariant
            j <= events@.len(),
            forall|k: int| 0 <= k < j ==> (#[trigger] events_of(events@)[k]).0 != event@,
        decreases events@.len() - j,
    {
        if events[j].0 == *event {
            assert(events_of(events@)[j as int].0 == event@);
            return Some(j);
        }
        assert(events_of(events@)[j as int].0 != event@);
        j += 1;
    }
    None
}

/// Adds `amount` to the count of `event`, as far as the counter goes; an
/// event not yet in the list is put at its end.
fn add_to_event(events: &mut Vec<(String, u64)>, event: &String, amount: u64)
    requires
        events_unique(events_of(old(events)@)),
    ensures
        events_unique(events_of(final(events)@)),
        has_event(events_of(old(events)@), event@) ==> events_of(final(events)@) == events_of(
            old(events)@,
        ).update(
            event_position(events_of(old(events)@), event@),
            (
                event@,
                clamp(
                    (events_of(old(events)@)[event_position(events_of(old(events)@), event@)].1
                        + amount) as nat,
                ),
            ),
        ),
        !has_event(events_of(old(events)@), event@) ==> events_of(final(events)@) == events_of(
            old(events)@,
        ).push((event@, amount)),
{
    let ghost before = events_of(events@);
    match find_event(events, event) {
        Some(j) => {
            proof {
                assert(before[j as int].0 == event@);
                assert(event_position(before, event@) == j);
            }
            let old_count = events[j].1;
            let sum = old_count.saturating_add(amount);
            events[j] = (event.clone(), sum);
            proof {
                assert(events_of(events@) =~= before.update(j as int, (event@, sum)));
                assert forall|a: int, b: int|
                    0 <= a < events@.len() && 0 <= b < events@.len() && a != b implies (
                #[trigger] events_of(events@)[a]).0 != (#[trigger] events_of(events@)[b]).0 by {
                    assert(before[a].0 != before[b].0);
                }
            }
        },
        None => {
            events.push((event.clone(), amount));
            proof {
                assert(events_of(events@) =~= before.push((event@, amount)));
                assert forall|a: int, b: int|
                    0 <= a < events@.len() && 0 <= b < events@.len() && a != b implies (
                #[trigger] events_of(events@)[a]).0 != (#[trigger] events_of(events@)[b]).0 by {
                    if a < before.len() && b < before.len() {
                        assert(before[a].0 != before[b].0);
                    } else if a < before.len() {
                        assert(before[a].0 != event@);
                    } else {
                        assert(before[b].0 != event@);
                    }
                }
            }
        },
    }
}

impl StatCounterVal {
    /// Counts nothing yet.
    pub fn new(now: u64) -> (v: StatCounterVal)
        ensures
            v@ == (StatValView { events: Seq::empty(), edit_at: now }),
    {
        let v = StatCounterVal { event_count: Vec::new(), edit_at: now };
        proof {
            assert(v@.events =~= Seq::empty());
        }
        v
    }

    /// Counts one more `event` at time `now`.
    pub fn increment(&mut self, event: &str, now: u64)
        requires
            events_unique(old(self)@.events),
        ensures
            events_unique(final(self)@.events),
            final(self)@ == val_incremented(old(self)@, event@, now),
    {
        let name = String::from_str(event);
        let ghost before = self@.events;
        proof {
            if has_event(before, event@) {
                let j = event_position(before, event@);
                if before[j].1 < u64::MAX {
                    assert(clamp((before[j].1 + 1) as nat) == count_up(before[j].1));
                } else {
                    assert(clamp((before[j].1 + 1) as nat) == count_up(before[j].1));
                }
            }
        }
        add_to_event(&mut self.event_count, &name, 1);
        self.edit_at = now;
    }
}

impl StatCounterStore {
    /// The invariant of the store: no key stands in it twice, and under no
    /// key an event.
    pub open spec fn wf(&self) -> bool {
        &&& keys_unique(self@)
        &&& forall|i: int| 0 <= i < self@.len() ==> events_unique((#[trigger] self@[i]).1.events)
    }

    /// A store without counters.
    pub fn new() -> (store: StatCounterStore)
        ensures
            store.wf(),
            store@.len() == 0,
    {
        StatCounterStore { entries: Vec::new() }
    }

    /// Number of keys.
    pub fn len(&self) -> (n: usize)
        ensures
            n == self@.len(),
    {
        self.entries.len()
    }

    /// Where `key` stands in the store, if it does.
    fn find(&self, key: &StatCounterKey) -> (at: Option<usize>)
        ensures
            at matches Some(i) ==> i < self@.len() && self@[i as int].0 == key@,
            at is None ==> !has_key(self@, key@),
    {
        let mut i: usize = 0;
        while i < self.entries.len()
            invariant
                i <= self.entries@.len(),
                forall|k: int| 0 <= k < i ==> (#[trigger] self@[k]).0 != key@,
            decreases self.entries@.len() - i,
        {
            if self.entries[i].0.same_as(key) {
                assert(self@[i as int].0 == key@);
                return Some(i);
            }
            assert(self@[i as int].0 != key@);
            i += 1;
        }
        None
    }
}

/// Counts one more `stat_event` for the items `stat_item_a` and
/// `stat_item_b` under the statistic `stat_type`, at time `now`.
pub fn stat_counter_increment(
    store: &mut StatCounterStore,
    stat_type: &str,
    stat_event: &str,
    stat_item_a: &str,
    stat_item_b: &str,
    now: u64,
)
    requires
        old(store).wf(),
    ensures
        final(store).wf(),
        final(store)@ == store_incremented(
            old(store)@,
            StatKeyView { stat_type: stat_type@, item_a: stat_item_a@, item_b: stat_item_b@ },
            stat_event@,
            now,
        ),
{
    let hash_key = StatCounterKey {
        stat_type: String::from_str(stat_type),
        item_a: String::from_str(stat_item_a),
        item_b: String::from_str(stat_item_b),
    };
    let ghost before = store@;
    let ghost kv = hash_key@;
    match store.find(&hash_key) {
        Some(i) => {
            proof {
                assert(before[i as int].0 == kv);
                assert(key_position(before, kv) == i);
            }
            let (key, mut counter) = store.entries.remove(i);
            proof {
                assert(counter@ == before[i as int].1);
            }
            counter.increment(stat_event, now);
            let ghost after_val = counter@;
            store.entries.insert(i, (key, counter));
            proof {
                assert(store@ =~= before.update(i as int, (kv, after_val)));
                assert forall|a: int, b: int|
                    0 <= a < store@.len() && 0 <= b < store@.len() && a != b implies (
                #[trigger] store@[a]).0 != (#[trigger] store@[b]).0 by {
                    assert(before[a].0 != before[b].0);
                }
                assert forall|a: int| 0 <= a < store@.len() implies events_unique(
                    (#[trigger] store@[a]).1.events,
                ) by {
                    if a != i {
                        assert(events_unique(before[a].1.events));
                    }
                }
            }
        },
        None => {
            let mut counter = StatCounterVal::new(now);
            proof {
                assert(events_unique(counter@.events));
            }
            counter.increment(stat_event, now);
            let ghost after_val = counter@;
            store.entries.push((hash_key, counter));
            proof {
                assert(store@ =~= before.push((kv, after_val)));
                assert forall|a: int, b: int|
                    0 <= a < store@.len() && 0 <= b < store@.len() && a != b implies (
                #[trigger] store@[a]).0 != (#[trigger] store@[b]).0 by {
                    if a < before.len() && b < before.len() {
                        assert(before[a].0 != before[b].0);
                    } else if a < before.len() {
                        assert(before[a].0 != kv);
                    } else {
                        assert(before[b].0 != kv);
                    }
                }
                assert forall|a: int| 0 <= a < store@.len() implies events_unique(
                    (#[trigger] store@[a]).1.events,
                ) by {
                    if a < before.len() {
                        assert(events_unique(before[a].1.events));
                    }
                }
            }
        },
    }
}


/// Order of two report lines, as `row_order` has it.
fn line_order(r: &(StatCounterKey, String, u64), s: &(StatCounterKey, String, u64)) -> (o: i8)
    ensures
        o == row_order(
            StatRow { key: r.0@, event: r.1@, count: r.2 },
            StatRow { key: s.0@, event: s.1@, count: s.2 },
        ),
{
    let by_type = text_order(r.0.stat_type.as_str(), s.0.stat_type.as_str());
    if by_type != 0 {
        return by_type;
    }
    let by_a = text_order(r.0.item_a.as_str(), s.0.item_a.as_str());
    if by_a != 0 {
        return by_a;
    }
    let by_b = text_order(r.0.item_b.as_str(), s.0.item_b.as_str());
    if by_b != 0 {
        return by_b;
    }
    let by_event = text_order(r.1.as_str(), s.1.as_str());
    if by_event != 0 {
        return by_event;
    }
    if r.2 < s.2 {
        -1
    } else if r.2 > s.2 {
        1
    } else {
        0
    }
}

/// Puts `row` into the sorted list `rows`, behind every line that comes no
/// later than it.
fn insert_sorted(rows: &mut Vec<(StatCounterKey, String, u64)>, row: (StatCounterKey, String, u64))
    requires
        rows_sorted(rows_of(old(rows)@)),
    ensures
        rows_sorted(rows_of(final(rows)@)),
        rows_of(final(rows)@).to_multiset() == rows_of(old(rows)@).to_multiset().insert(
            StatRow { key: row.0@, event: row.1@, count: row.2 },
        ),
{
    let ghost before = rows_of(rows@);
    let ghost line = StatRow { key: row.0@, event: row.1@, count: row.2 };
    let mut j: usize = 0;
    while j < rows.len() && line_order(&rows[j], &row) <= 0
        invariant
            j <= rows@.len(),
            before == rows_of(rows@),
            line == (StatRow { key: row.0@, event: row.1@, count: row.2 }),
            forall|k: int| 0 <= k < j ==> row_order(#[trigger] before[k], line) <= 0,
        decreases rows@.len() - j,
    {
        assert(before[j as int] == (StatRow {
            key: rows@[j as int].0@,
            event: rows@[j as int].1@,
            count: rows@[j as int].2,
        }));
        j += 1;
    }
    proof {
        if j < rows@.len() {
            assert(before[j as int] == (StatRow {
                key: rows@[j as int].0@,
                event: rows@[j as int].1@,
                count: rows@[j as int].2,
            }));
            lemma_row_order_flips(before[j as int], line);
        }
    }
    rows.insert(j, row);
    proof {
        let after = rows_of(rows@);
        assert(after =~= before.insert(j as int, line));
        to_multiset_insert(before, j as int, line);
        assert forall|i: int| 0 <= i < after.len() - 1 implies row_order(
            #[trigger] after[i],
            after[i + 1],
        ) <= 0 by {
            if i + 1 < j {
                assert(row_order(before[i], before[i + 1]) <= 0);
            } else if i + 1 == j {
                assert(row_order(before[i], line) <= 0);
            } else if i == j {
            } else {
                assert(row_order(before[i - 1], before[i - 1 + 1]) <= 0);
            }
        }
    }
}

/// The report lines of all counters that are not expired at `now`, in the
/// order of the store.
fn collect_rows(store: &StatCounterStore, now: u64) -> (rows: Vec<(StatCounterKey, String, u64)>)
    ensures
        rows_of(rows@) == live_rows(store@, now),
{
    let mut rows: Vec<(StatCounterKey, String, u64)> = Vec::new();
    let mut i: usize = 0;
    proof {
        assert(store@.take(0) =~= Seq::<(StatKeyView, StatValView)>::empty());
        assert(rows_of(rows@) =~= live_rows(store@.take(0), now));
    }
    while i < store.entries.len()
        invariant
            i <= store.entries@.len(),
            rows_of(rows@) == live_rows(store@.take(i as int), now),
        decreases store.entries@.len() - i,
    {
        let ghost done = rows_of(rows@);
        let ghost kv = store@[i as int].0;
        let ghost vv = store@[i as int].1;
        proof {
            assert(store@.take(i + 1).drop_last() =~= store@.take(i as int));
            assert(store@.take(i + 1).last() == store@[i as int]);
        }
        let entry = &store.entries[i];
        let expired = (entry.1.edit_at as u128) + (STAT_COUNTER_ENTRY_TTL_MS as u128) < (
        now as u128);
        if !expired {
            let mut j: usize = 0;
            proof {
                assert(rows_of(rows@) =~= done + rows_of_entry(kv, vv).take(0));
            }
            while j < entry.1.event_count.len()
                invariant
                    j <= entry.1.event_count@.len(),
                    i < store.entries@.len(),
                    *entry == store.entries@[i as int],
                    kv == store@[i as int].0,
                    vv == store@[i as int].1,
                    rows_of(rows@) == done + rows_of_entry(kv, vv).take(j as int),
                decreases entry.1.event_count@.len() - j,
            {
                let ghost so_far = rows_of(rows@);
                rows.push(
                    (entry.0.clone_key(), entry.1.event_count[j].0.clone(), entry.1.event_count[j].1),
                );
                proof {
                    let line = rows_of_entry(kv, vv)[j as int];
                    assert(rows_of(rows@) =~= so_far.push(line));
                    assert(rows_of_entry(kv, vv).take(j + 1) =~= rows_of_entry(kv, vv).take(
                        j as int,
                    ).push(line));
                    assert(rows_of(rows@) =~= done + rows_of_entry(kv, vv).take(j + 1));
                }
                j += 1;
            }
            proof {
                assert(rows_of_entry(kv, vv).take(j as int) =~= rows_of_entry(kv, vv));
            }
        }
        i += 1;
    }
    proof {
        assert(store@.take(store@.len() as int) =~= store@);
    }
    rows
}

/// The report: one line for every event of every counter that is not
/// expired at `now`, sorted by `row_order`.
pub fn stat_counter_get_all(store: &StatCounterStore, now: u64) -> (report: Vec<
    (StatCounterKey, String, u64),
>)
    ensures
        rows_sorted(rows_of(report@)),
        rows_of(report@).to_multiset() == live_rows(store@, now).to_multiset(),
{
    let mut rows = collect_rows(store, now);
    let ghost all = rows_of(rows@);
    let mut report: Vec<(StatCounterKey, String, u64)> = Vec::new();
    proof {
        assert(all.skip(all.len() as int) =~= Seq::<StatRow>::empty());
        assert(rows_of(rows@) =~= all.take(all.len() as int));
        assert(rows_of(report@) =~= Seq::<StatRow>::empty());
        lemma_multiset_commutative(all.take(all.len() as int), rows_of(report@));
        assert(all.take(all.len() as int) + rows_of(report@) =~= all);
    }
    while rows.len() > 0
        invariant
            rows_sorted(rows_of(report@)),
            rows@.len() <= all.len(),
            rows_of(rows@) == all.take(rows@.len() as int),
            all.take(rows@.len() as int).to_multiset().add(rows_of(report@).to_multiset())
                == all.to_multiset(),
        decreases rows@.len(),
    {
        let ghost n = rows@.len() as int;
        let ghost sorted_before = rows_of(report@);
        let ghost unsorted = rows@;
        let row = rows.pop().unwrap();
        proof {
            let line = all[n - 1];
            assert(row == unsorted[n - 1]);
            assert(rows_of(unsorted)[n - 1] == (StatRow {
                key: unsorted[n - 1].0@,
                event: unsorted[n - 1].1@,
                count: unsorted[n - 1].2,
            }));
            assert(all.take(n)[n - 1] == line);
            assert(rows_of(rows@) =~= all.take(n - 1));
            assert(all.take(n) =~= all.take(n - 1).push(line));
            to_multiset_build(all.take(n - 1), line);
            assert((StatRow { key: row.0@, event: row.1@, count: row.2 }) == line);
        }
        insert_sorted(&mut report, row);
        proof {
            let line = all[n - 1];
            assert(all.take(n - 1).to_multiset().add(sorted_before.to_multiset().insert(line))
                =~= all.take(n - 1).to_multiset().insert(line).add(sorted_before.to_multiset()));
        }
    }
    proof {
        assert(all.take(0) =~= Seq::<StatRow>::empty());
        assert(all.take(0).to_multiset().add(rows_of(report@).to_multiset()) =~= rows_of(
            report@,
        ).to_multiset());
    }
    report
}


/// An event that no line counts for an item has the total zero.
pub proof fn lemma_unseen_event_total(rows: Seq<StatRow>, item: Seq<char>, event: Seq<char>)
    requires
        !event_seen(rows, item, event),
    ensures
        event_total(rows, item, event) == 0,
    decreases rows.len(),
{
    if rows.len() > 0 {
        let rest = rows.drop_last();
        assert(!row_matches(rows[rows.len() - 1], item, event));
        assert(!event_seen(rest, item, event)) by {
            if event_seen(rest, item, event) {
                let k = choose|k: int| 0 <= k < rest.len() && row_matches(#[trigger] rest[k], item, event);
                assert(row_matches(rows[k], item, event));
            }
        }
        lemma_unseen_event_total(rest, item, event);
    }
}

/// The events counted for `item` in `rows`, each once, in the order in
/// which the lines name them, with the sum of their counts.
fn item_totals(rows: &Vec<(StatCounterKey, String, u64)>, item: &str) -> (totals: Vec<(String, u64)>)
    ensures
        is_item_totals(events_of(totals@), rows_of(rows@), item@),
{
    let wanted = String::from_str(item);
    let ghost all = rows_of(rows@);
    let mut totals: Vec<(String, u64)> = Vec::new();
    let mut k: usize = 0;
    while k < rows.len()
        invariant
            k <= rows@.len(),
            all == rows_of(rows@),
            wanted@ == item@,
            is_item_totals(events_of(totals@), all.take(k as int), item@),
        decreases rows@.len() - k,
    {
        let ghost before = events_of(totals@);
        let ghost seen = all.take(k as int);
        let ghost next = all.take(k + 1);
        let ghost line = all[k as int];
        proof {
            assert(next.drop_last() =~= seen);
            assert(next.last() == line);
            assert(line == (StatRow {
                key: rows@[k as int].0@,
                event: rows@[k as int].1@,
                count: rows@[k as int].2,
            }));
            assert forall|e: Seq<char>| event_seen(seen, item@, e) implies event_seen(
                next,
                item@,
                e,
            ) by {
                let i = choose|i: int| 0 <= i < seen.len() && row_matches(#[trigger] seen[i], item@, e);
                assert(row_matches(next[i], item@, e));
            }
        }
        if rows[k].0.item_a == wanted || rows[k].0.item_b == wanted {
            proof {
                if !has_event(before, line.event) {
                    assert(!event_seen(seen, item@, line.event)) by {
                        if event_seen(seen, item@, line.event) {
                            let i = choose|i: int|
                                0 <= i < seen.len() && row_matches(
                                    #[trigger] seen[i],
                                    item@,
                                    line.event,
                                );
                            assert(has_event(before, seen[i].event));
                        }
                    }
                    lemma_unseen_event_total(seen, item@, line.event);
                }
            }
            add_to_event(&mut totals, &rows[k].1, rows[k].2);
            proof {
                let after = events_of(totals@);
                assert(row_matches(next[k as int], item@, line.event));
                assert forall|j: int| 0 <= j < after.len() implies event_seen(
                    next,
                    item@,
                    (#[trigger] after[j]).0,
                ) && after[j].1 == clamp(event_total(next, item@, after[j].0)) by {
                    if has_event(before, line.event) {
                        let at = event_position(before, line.event);
                        if j == at {
                            assert(before[j].1 == clamp(event_total(seen, item@, line.event)));
                        } else {
                            assert(before[j].0 != before[at].0);
                            assert(before[j].1 == clamp(event_total(seen, item@, before[j].0)));
                        }
                    } else {
                        if j < before.len() {
                            assert(before[j].0 != line.event);
                            assert(before[j].1 == clamp(event_total(seen, item@, before[j].0)));
                        }
                    }
                }
                assert forall|i: int|
                    0 <= i < next.len() && (next[i].key.item_a == item@ || next[i].key.item_b
                        == item@) implies has_event(after, (#[trigger] next[i]).event) by {
                    if i < k {
                        assert(seen[i] == next[i]);
                        assert(has_event(before, seen[i].event));
                        let j = choose|j: int|
                            0 <= j < before.len() && (#[trigger] before[j]).0 == seen[i].event;
                        assert(after[j].0 == seen[i].event);
                    } else {
                        if has_event(before, line.event) {
                            let at = event_position(before, line.event);
                            assert(after[at].0 == line.event);
                        } else {
                            assert(after[before.len() as int].0 == line.event);
                        }
                    }
                }
            }
        } else {
            proof {
                assert forall|j: int| 0 <= j < before.len() implies event_seen(
                    next,
                    item@,
                    (#[trigger] before[j]).0,
                ) && before[j].1 == clamp(event_total(next, item@, before[j].0)) by {
                    assert(before[j].1 == clamp(event_total(seen, item@, before[j].0)));
                }
                assert forall|i: int|
                    0 <= i < next.len() && (next[i].key.item_a == item@ || next[i].key.item_b
                        == item@) implies has_event(before, (#[trigger] next[i]).event) by {
                    assert(i < k);
                    assert(seen[i] == next[i]);
                }
            }
        }
        k += 1;
    }
    proof {
        assert(all.take(rows@.len() as int) =~= all);
    }
    totals
}

/// For each of `items`, in order, how often each event was counted for it
/// as the first or the second item of a counter that is not expired at
/// `now`.
pub fn stat_count_events_for_items(store: &StatCounterStore, items: &Vec<&str>, now: u64) -> (counts:
    Vec<(String, Vec<(String, u64)>)>)
    ensures
        counts@.len() == items@.len(),
        forall|i: int|
            0 <= i < counts@.len() ==> (#[trigger] counts@[i]).0@ == items@[i]@ && is_item_totals(
                events_of(counts@[i].1@),
                live_rows(store@, now),
                items@[i]@,
            ),
{
    let rows = collect_rows(store, now);
    let mut counts: Vec<(String, Vec<(String, u64)>)> = Vec::new();
    let mut i: usize = 0;
    while i < items.len()
        invariant
            i <= items@.len(),
            counts@.len() == i,
            rows_of(rows@) == live_rows(store@, now),
            forall|j: int|
                0 <= j < i ==> (#[trigger] counts@[j]).0@ == items@[j]@ && is_item_totals(
                    events_of(counts@[j].1@),
                    live_rows(store@, now),
                    items@[j]@,
                ),
        decreases items@.len() - i,
    {
        let totals = item_totals(&rows, items[i]);
        counts.push((String::from_str(items[i]), totals));
        i += 1;
    }
    counts
}


/// The count that a list of named counts holds for `event`: that of the
/// first entry by that name, or zero where there is none.
pub fn count_of_event(totals: &Vec<(String, u64)>, event: &str) -> (count: u64)
    ensures
        !has_event(events_of(totals@), event@) ==> count == 0,
        has_event(events_of(totals@), event@) ==> exists|j: int|
            0 <= j < totals@.len() && (#[trigger] events_of(totals@)[j]) == (event@, count),
{
    let name = String::from_str(event);
    match find_event(totals, &name) {
        Some(j) => {
            proof {
                assert(events_of(totals@)[j as int] == (event@, totals@[j as int].1));
            }
            totals[j].1
        },
        None => 0,
    }
}

/// Order of two texts, as `lex_order` has it.
pub fn text_order(a: &str, b: &str) -> (o: i8)
    ensures
        o == lex_order(a@, b@),
        -1 <= o <= 1,
{
    let n = a.unicode_len();
    let m = b.unicode_len();
    let mut i: usize = 0;
    proof {
        assert(a@.skip(0) =~= a@);
        assert(b@.skip(0) =~= b@);
    }
    while i < n && i < m
        invariant
            i <= n,
            i <= m,
            n == a@.len(),
            m == b@.len(),
            lex_order(a@, b@) == lex_order(a@.skip(i as int), b@.skip(i as int)),
        decreases n - i,
    {
        let ca = a.get_char(i) as u32;
        let cb = b.get_char(i) as u32;
        proof {
            assert(a@.skip(i as int)[0] == a@[i as int]);
            assert(b@.skip(i as int)[0] == b@[i as int]);
            assert(a@.skip(i as int).drop_first() =~= a@.skip(i + 1));
            assert(b@.skip(i as int).drop_first() =~= b@.skip(i + 1));
        }
        if ca < cb {
            return -1;
        }
        if ca > cb {
            return 1;
        }
        i += 1;
    }
    if i < m {
        -1
    } else if i < n {
        1
    } else {
        0
    }
}

} // verus!
