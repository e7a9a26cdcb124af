//! The SOCKS5 proxy pool: the catalog of scraped proxies, their validation
//! and ranking, and the choice of proxies for a download.

use crate::proxy_scrape::texts;
use crate::random::{choose_entry, sample_indices_weighted};
use crate::stat_counter::{
    stat_counter_increment, store_incremented, StatCounterStore, StatKeyView, StoreView,
};
use crate::web_text::{domain_of_url, trim_text, trimmed, url_domain};
use vstd::prelude::*;
use vstd::string::*;

verus! {

/// Time between two scrapes of a source, and the base of the time between
/// two checks of a proxy, in milliseconds.
pub const SCRAPER_REFRESH_MS: u64 = 1_200_000;

/// Time after its last scrape when a proxy that failed its check is
/// dropped, in milliseconds.
pub const ENTRY_DELETE_MS: u64 = 7_200_000;

/// Errors without a single success above which a proxy is no longer
/// accepted.
pub const MAX_ERRORS_WITHOUT_SUCCESS: u64 = 50;

/// The sampling weight that stands for 1: weights are kept in units of
/// `2^-30`.
pub const WEIGHT_ONE: u64 = 0x4000_0000;

/// Delay of the first attempt of a race, in milliseconds.
pub const RACE_FIRST_DELAY_MS: u64 = 50;

/// Delay between the starts of two attempts of a race, in milliseconds.
pub const RACE_STAGGER_MS: u64 = 5550;

/// One proxy of the catalog. Times are in milliseconds.
#[derive(Debug)]
pub struct Socks5ProxyEntry {
    pub addr: String,
    /// Name of the scraper that found it last.
    pub category: String,
    pub last_check: Option<u64>,
    pub last_lag: Option<u64>,
    pub last_scraped: u64,
    pub last_check_error: String,
    pub last_remote_ip: String,
    pub checked: bool,
    pub accepted: bool,
    pub created_at: u64,
    pub failed_checks: u8,
    pub last_success_count: u64,
    pub last_err_count: u64,
}

/// A proxy entry as a value: its texts as sequences of characters.
pub struct ProxyEntryView {
    pub addr: Seq<char>,
    pub category: Seq<char>,
    pub last_check: Option<u64>,
    pub last_lag: Option<u64>,
    pub last_scraped: u64,
    pub last_check_error: Seq<char>,
    pub last_remote_ip: Seq<char>,
    pub checked: bool,
    pub accepted: bool,
    pub created_at: u64,
    pub failed_checks: u8,
    pub last_success_count: u64,
    pub last_err_count: u64,
}

impl View for Socks5ProxyEntry {
    type V = ProxyEntryView;

    open spec fn view(&self) -> ProxyEntryView {
        ProxyEntryView {
            addr: self.addr@,
            category: self.category@,
            last_check: self.last_check,
            last_lag: self.last_lag,
            last_scraped: self.last_scraped,
            last_check_error: self.last_check_error@,
            last_remote_ip: self.last_remote_ip@,
            checked: self.checked,
            accepted: self.accepted,
            created_at: self.created_at,
            failed_checks: self.failed_checks,
            last_success_count: self.last_success_count,
            last_err_count: self.last_err_count,
        }
    }
}

/// The time from which a checked proxy is due for its next check: the last
/// check plus the refresh time, stretched by three tenths for every check
/// failed in a row.
pub open spec fn recheck_due_at(last_check: Option<u64>, failed_checks: u8) -> int {
    (match last_check {
        Some(t) => t as int,
        None => 0,
    }) + (SCRAPER_REFRESH_MS / 10) * (3 * failed_checks + 10)
}

/// A proxy is checked when it never was, or when its next check is due.
pub open spec fn needs_recheck_spec(e: ProxyEntryView, now: u64) -> bool {
    !e.checked || recheck_due_at(e.last_check, e.failed_checks) < now
}

/// A proxy is dropped when it was checked, failed, and has not been scraped
/// for `ENTRY_DELETE_MS`.
pub open spec fn needs_delete_spec(e: ProxyEntryView, now: u64) -> bool {
    e.checked && !e.accepted && now - e.last_scraped > ENTRY_DELETE_MS
}

/// A source is scraped when it never was, or when its refresh time is over.
pub open spec fn should_refresh_spec(last_refresh: Option<u64>, now: u64) -> bool {
    match last_refresh {
        Some(t) => t + SCRAPER_REFRESH_MS < now,
        None => true,
    }
}

/// The entry of a proxy that was just scraped for the first time.
pub open spec fn fresh_entry(addr: Seq<char>, category: Seq<char>, now: u64) -> ProxyEntryView {
    ProxyEntryView {
        addr,
        category,
        last_check: None,
        last_lag: None,
        last_scraped: now,
        last_check_error: Seq::empty(),
        last_remote_ip: Seq::empty(),
        checked: false,
        accepted: false,
        created_at: now,
        failed_checks: 0,
        last_success_count: 0,
        last_err_count: 0,
    }
}

/// The entry after its proxy was checked from `started_at` to `now`.
pub open spec fn after_check(
    e: ProxyEntryView,
    ok: bool,
    error: Seq<char>,
    remote_ip: Seq<char>,
    started_at: u64,
    now: u64,
) -> ProxyEntryView {
    ProxyEntryView {
        last_check: Some(now),
        checked: true,
        accepted: ok,
        failed_checks: if ok {
            0
        } else if e.failed_checks < u8::MAX {
            (e.failed_checks + 1) as u8
        } else {
            u8::MAX
        },
        last_lag: Some(
            if now >= started_at {
                (now - started_at) as u64
            } else {
                0
            },
        ),
        last_check_error: if ok {
            Seq::empty()
        } else {
            "check err: "@ + error
        },
        last_remote_ip: remote_ip,
        ..e
    }
}

/// One more event, as far as the counter goes.
pub open spec fn count_up(n: u64) -> u64 {
    if n < u64::MAX {
        (n + 1) as u64
    } else {
        u64::MAX
    }
}

/// The entry after a download through its proxy at time `now`.
pub open spec fn after_attempt(e: ProxyEntryView, success: bool, now: u64) -> ProxyEntryView {
    if success {
        ProxyEntryView {
            last_check: Some(now),
            last_success_count: count_up(e.last_success_count),
            accepted: true,
            ..e
        }
    } else {
        ProxyEntryView {
            last_err_count: count_up(e.last_err_count),
            accepted: if count_up(e.last_err_count) > MAX_ERRORS_WITHOUT_SUCCESS
                && e.last_success_count == 0 {
                false
            } else {
                e.accepted
            },
            ..e
        }
    }
}

/// Sampling weight of a proxy with `success` downloads that went well and
/// `err` that did not: `(1 + 2·success) / (1 + success + err)`, in units of
/// `2^-WEIGHT_SHIFT`, rounded down.
pub open spec fn proxy_weight_spec(success: u64, err: u64) -> int {
    ((1 + 2 * success) * 0x4000_0000) / (1 + success + err)
}


/// The catalog of proxies as values.
pub type CatalogView = Seq<ProxyEntryView>;

/// The catalog holds a proxy with address `addr`.
pub open spec fn has_addr(cat: CatalogView, addr: Seq<char>) -> bool {
    exists|i: int| 0 <= i < cat.len() && #[trigger] cat[i].addr == addr
}

/// Where the catalog holds the proxy with address `addr`.
pub open spec fn position(cat: CatalogView, addr: Seq<char>) -> int {
    choose|i: int| 0 <= i < cat.len() && #[trigger] cat[i].addr == addr
}

/// No address stands twice in the catalog.
pub open spec fn addrs_unique(cat: CatalogView) -> bool {
    forall|i: int, j: int|
        0 <= i < cat.len() && 0 <= j < cat.len() && i != j ==> #[trigger] cat[i].addr
            != #[trigger] cat[j].addr
}

/// The catalog after `addr` was scraped by `category` at `now`: a known
/// proxy has its scrape time and category refreshed, a new one is added as
/// not checked and not accepted.
pub open spec fn upsert_spec(
    cat: CatalogView,
    addr: Seq<char>,
    category: Seq<char>,
    now: u64,
) -> CatalogView {
    if has_addr(cat, addr) {
        let i = position(cat, addr);
        cat.update(i, ProxyEntryView { last_scraped: now, category, ..cat[i] })
    } else {
        cat.push(fresh_entry(addr, category, now))
    }
}

/// The catalog after every address of `found` was scraped, in order.
pub open spec fn upsert_all(
    cat: CatalogView,
    found: Seq<Seq<char>>,
    category: Seq<char>,
    now: u64,
) -> CatalogView
    decreases found.len(),
{
    if found.len() == 0 {
        cat
    } else {
        upsert_spec(upsert_all(cat, found.drop_last(), category, now), found.last(), category, now)
    }
}

/// The entries of the catalog that are accepted (`want`) or not (`!want`),
/// in the catalog's order.
pub open spec fn with_accepted(cat: CatalogView, want: bool) -> CatalogView
    decreases cat.len(),
{
    if cat.len() == 0 {
        Seq::empty()
    } else if cat.last().accepted == want {
        with_accepted(cat.drop_last(), want).push(cat.last())
    } else {
        with_accepted(cat.drop_last(), want)
    }
}

/// The values of a list of entries.
pub open spec fn views_of(v: Seq<Socks5ProxyEntry>) -> CatalogView {
    Seq::new(v.len(), |i: int| v[i]@)
}

/// Every entry of `with_accepted` is an entry of the catalog with that
/// mark, and the list is no longer than the catalog.
pub proof fn lemma_with_accepted(cat: CatalogView, want: bool)
    ensures
        with_accepted(cat, want).len() <= cat.len(),
        forall|k: int|
            0 <= k < with_accepted(cat, want).len() ==> (#[trigger] with_accepted(
                cat,
                want,
            )[k]).accepted == want && cat.contains(with_accepted(cat, want)[k]),
        addrs_unique(cat) ==> addrs_unique(with_accepted(cat, want)),
    decreases cat.len(),
{
    if cat.len() > 0 {
        let rest = cat.drop_last();
        lemma_with_accepted(rest, want);
        let sub = with_accepted(rest, want);
        let all = with_accepted(cat, want);
        assert forall|k: int| 0 <= k < all.len() implies (#[trigger] all[k]).accepted == want
            && cat.contains(all[k]) by {
            if k < sub.len() {
                assert(rest.contains(sub[k]));
                let i = choose|i: int| 0 <= i < rest.len() && rest[i] == sub[k];
                assert(cat[i] == sub[k]);
            } else {
                assert(cat[cat.len() - 1] == all[k]);
            }
        }
        if addrs_unique(cat) {
            assert(addrs_unique(rest)) by {
                assert forall|i: int, j: int|
                    0 <= i < rest.len() && 0 <= j < rest.len() && i != j implies #[trigger] rest[i].addr
                    != #[trigger] rest[j].addr by {
                    assert(cat[i].addr != cat[j].addr);
                }
            }
            assert forall|i: int, j: int|
                0 <= i < all.len() && 0 <= j < all.len() && i != j implies #[trigger] all[i].addr
                != #[trigger] all[j].addr by {
                if i < sub.len() && j < sub.len() {
                    assert(sub[i].addr != sub[j].addr);
                } else {
                    let small = if i < sub.len() {
                        i
                    } else {
                        j
                    };
                    assert(rest.contains(sub[small]));
                    let m = choose|m: int| 0 <= m < rest.len() && rest[m] == sub[small];
                    assert(cat[m].addr != cat[cat.len() - 1].addr);
                }
            }
        }
    }
}

/// The catalog of proxies, keyed by address.
pub struct ProxyCatalog {
    entries: Vec<Socks5ProxyEntry>,
}

impl View for ProxyCatalog {
    type V = CatalogView;

    closed spec fn view(&self) -> CatalogView {
        views_of(self.entries@)
    }
}

/// How a scrape changed the catalog: the addresses that were new and those
/// that were known.
#[derive(Clone, Copy, Debug, PartialEq, Eq)]
pub struct ScrapeCounts {
    pub new_addr_count: usize,
    pub existing_addr_count: usize,
}

/// A scrape that found no proxy.
#[derive(Clone, Copy, Debug, PartialEq, Eq)]
pub struct NoProxyFound;

impl ProxyCatalog {
    /// The invariant of the catalog: no address stands in it twice.
    pub open spec fn wf(&self) -> bool {
        addrs_unique(self@)
    }

    /// A catalog without proxies.
    pub fn new() -> (cat: ProxyCatalog)
        ensures
            cat.wf(),
            cat@.len() == 0,
    {
        ProxyCatalog { entries: Vec::new() }
    }

    /// Number of proxies.
    pub fn len(&self) -> (n: usize)
        ensures
            n == self@.len(),
    {
        self.entries.len()
    }

    /// The `i`-th proxy.
    pub fn entry(&self, i: usize) -> (e: &Socks5ProxyEntry)
        requires
            i < self@.len(),
        ensures
            e@ == self@[i as int],
    {
        &self.entries[i]
    }

    /// Where the proxy with address `addr` stands, if the catalog has it.
    pub fn find(&self, addr: &str) -> (at: Option<usize>)
        ensures
            at matches Some(i) ==> i < self@.len() && self@[i as int].addr == addr@,
            at is None ==> !has_addr(self@, addr@),
    {
        let wanted = String::from_str(addr);
        let mut i: usize = 0;
        while i < self.entries.len()
            invariant
                i <= self.entries@.len(),
                wanted@ == addr@,
                forall|j: int| 0 <= j < i ==> (#[trigger] self@[j]).addr != addr@,
            decreases self.entries@.len() - i,
        {
            if self.entries[i].addr == wanted {
                assert(self@[i as int].addr == addr@);
                return Some(i);
            }
            assert(self@[i as int].addr != addr@);
            i += 1;
        }
        None
    }

    /// Writes `entry` under its address: in the place of the entry with
    /// that address, or at the end where there is none.
    pub fn insert(&mut self, entry: Socks5ProxyEntry)
        requires
            old(self).wf(),
        ensures
            final(self).wf(),
            has_addr(old(self)@, entry@.addr) ==> final(self)@ == old(self)@.update(
                position(old(self)@, entry@.addr),
                entry@,
            ),
            !has_addr(old(self)@, entry@.addr) ==> final(self)@ == old(self)@.push(entry@),
    {
        let ghost before = self@;
        let ghost ev = entry@;
        match self.find(entry.addr.as_str()) {
            Some(i) => {
                proof {
                    assert(before[i as int].addr == ev.addr);
                    assert(position(before, ev.addr) == i);
                }
                self.entries[i] = entry;
                proof {
                    assert(self@ =~= before.update(i as int, ev));
                }
            },
            None => {
                self.entries.push(entry);
                proof {
                    assert(self@ =~= before.push(ev));
                    assert forall|i: int, j: int|
                        0 <= i < self@.len() && 0 <= j < self@.len() && i != j implies #[trigger] self@[i].addr
                        != #[trigger] self@[j].addr by {
                        if i < before.len() && j < before.len() {
                            assert(before[i].addr != before[j].addr);
                        } else if i < before.len() {
                            assert(before[i].addr != ev.addr);
                        } else {
                            assert(before[j].addr != ev.addr);
                        }
                    }
                }
            },
        }
    }

    /// Drops the proxy with address `addr`; `true` says that there was one.
    pub fn remove(&mut self, addr: &str) -> (removed: bool)
        requires
            old(self).wf(),
        ensures
            final(self).wf(),
            removed == has_addr(old(self)@, addr@),
            removed ==> final(self)@ == old(self)@.remove(position(old(self)@, addr@)),
            !removed ==> final(self)@ == old(self)@,
    {
        let ghost before = self@;
        match self.find(addr) {
            Some(i) => {
                proof {
                    assert(before[i as int].addr == addr@);
                    assert(position(before, addr@) == i);
                }
                let _ = self.entries.remove(i);
                proof {
                    assert(self@ =~= before.remove(i as int));
                    assert forall|a: int, b: int|
                        0 <= a < self@.len() && 0 <= b < self@.len() && a != b implies #[trigger] self@[a].addr
                        != #[trigger] self@[b].addr by {
                        let a0 = if a < i {
                            a
                        } else {
                            a + 1
                        };
                        let b0 = if b < i {
                            b
                        } else {
                            b + 1
                        };
                        assert(before[a0].addr != before[b0].addr);
                    }
                }
                true
            },
            None => false,
        }
    }

    /// Records that `addr` was scraped by `category` at `now`; `true` says
    /// that the proxy is new to the catalog.
    pub fn upsert_scraped(&mut self, addr: &str, category: &str, now: u64) -> (is_new: bool)
        requires
            old(self).wf(),
        ensures
            final(self).wf(),
            final(self)@ == upsert_spec(old(self)@, addr@, category@, now),
            is_new == !has_addr(old(self)@, addr@),
            is_new ==> final(self)@.len() == old(self)@.len() + 1,
            !is_new ==> final(self)@.len() == old(self)@.len(),
    {
        let ghost before = self@;
        match self.find(addr) {
            Some(i) => {
                proof {
                    assert(before[i as int].addr == addr@);
                    assert(position(before, addr@) == i);
                }
                let mut e = self.entries[i].clone_entry();
                e.last_scraped = now;
                e.category = String::from_str(category);
                self.entries[i] = e;
                proof {
                    assert(self@ =~= upsert_spec(before, addr@, category@, now));
                    assert forall|a: int, b: int|
                        0 <= a < self@.len() && 0 <= b < self@.len() && a != b implies #[trigger] self@[a].addr
                        != #[trigger] self@[b].addr by {
                        assert(before[a].addr != before[b].addr);
                    }
                }
                false
            },
            None => {
                self.insert(Socks5ProxyEntry::scraped(addr, category, now));
                true
            },
        }
    }

    /// Takes the addresses that the scraper `category` found at `now` into
    /// the catalog, in order. A scrape that found nothing is an error and
    /// changes nothing.
    pub fn refresh_single_socks5_proxy_list(
        &mut self,
        category: &str,
        found_socks: &Vec<String>,
        now: u64,
    ) -> (counts: Result<ScrapeCounts, NoProxyFound>)
        requires
            old(self).wf(),
        ensures
            final(self).wf(),
            counts is Err <==> found_socks@.len() == 0,
            counts is Err ==> final(self)@ == old(self)@,
            counts matches Ok(c) ==> {
                &&& final(self)@ == upsert_all(old(self)@, texts(found_socks@), category@, now)
                &&& c.new_addr_count + c.existing_addr_count == found_socks@.len()
                &&& final(self)@.len() == old(self)@.len() + c.new_addr_count
            },
    {
        if found_socks.len() == 0 {
            return Err(NoProxyFound);
        }
        let ghost before = self@;
        let ghost found = texts(found_socks@);
        let mut new_addr_count: usize = 0;
        let mut existing_addr_count: usize = 0;
        let mut k: usize = 0;
        proof {
            assert(found.take(0) =~= Seq::<Seq<char>>::empty());
        }
        while k < found_socks.len()
            invariant
                k <= found_socks@.len(),
                found == texts(found_socks@),
                self.wf(),
                self@ == upsert_all(before, found.take(k as int), category@, now),
                new_addr_count + existing_addr_count == k,
                self@.len() == before.len() + new_addr_count,
            decreases found_socks@.len() - k,
        {
            let is_new = self.upsert_scraped(found_socks[k].as_str(), category, now);
            if is_new {
                new_addr_count += 1;
            } else {
                existing_addr_count += 1;
            }
            proof {
                assert(found.take(k + 1).drop_last() =~= found.take(k as int));
                assert(found.take(k + 1).last() == found_socks@[k as int]@);
            }
            k += 1;
        }
        proof {
            assert(found.take(found_socks@.len() as int) =~= found);
        }
        Ok(ScrapeCounts { new_addr_count, existing_addr_count })
    }

    /// Records a download through the proxy with address `addr` at time
    /// `now`, as `Socks5ProxyEntry::record_attempt` does; `false` says that
    /// the catalog holds no such proxy.
    pub fn record_attempt(&mut self, addr: &str, success: bool, now: u64) -> (known: bool)
        requires
            old(self).wf(),
        ensures
            final(self).wf(),
            known == has_addr(old(self)@, addr@),
            final(self)@ == catalog_after_attempt(old(self)@, addr@, success, now),
    {
        let ghost before = self@;
        match self.find(addr) {
            Some(i) => {
                proof {
                    assert(before[i as int].addr == addr@);
                    assert(position(before, addr@) == i);
                }
                let mut e = self.entries[i].clone_entry();
                e.record_attempt(success, now);
                self.entries[i] = e;
                proof {
                    assert(self@ =~= catalog_after_attempt(before, addr@, success, now));
                    assert forall|a: int, b: int|
                        0 <= a < self@.len() && 0 <= b < self@.len() && a != b implies #[trigger] self@[a].addr
                        != #[trigger] self@[b].addr by {
                        assert(before[a].addr != before[b].addr);
                    }
                }
                true
            },
            None => false,
        }
    }

    /// The proxies that are accepted (`want`) or not (`!want`), in the
    /// catalog's order.
    pub fn all_with_accepted(&self, want: bool) -> (list: Vec<Socks5ProxyEntry>)
        ensures
            views_of(list@) == with_accepted(self@, want),
    {
        let mut list: Vec<Socks5ProxyEntry> = Vec::new();
        let mut i: usize = 0;
        proof {
            assert(self@.take(0) =~= Seq::<ProxyEntryView>::empty());
            assert(views_of(list@) =~= with_accepted(self@.take(0), want));
        }
        while i < self.entries.len()
            invariant
                i <= self.entries@.len(),
                views_of(list@) == with_accepted(self@.take(i as int), want),
            decreases self.entries@.len() - i,
        {
            let ghost before = views_of(list@);
            proof {
                assert(self@.take(i + 1).drop_last() =~= self@.take(i as int));
                assert(self@.take(i + 1).last() == self@[i as int]);
            }
            if self.entries[i].accepted == want {
                list.push(self.entries[i].clone_entry());
                proof {
                    assert(views_of(list@) =~= before.push(self@[i as int]));
                }
            }
            i += 1;
        }
        proof {
            assert(self@.take(self@.len() as int) =~= self@);
        }
        list
    }

}



/// The accepted proxies, in the catalog's order.
pub fn get_all_working_proxies(catalog: &ProxyCatalog) -> (list: Vec<Socks5ProxyEntry>)
    ensures
        views_of(list@) == with_accepted(catalog@, true),
{
    catalog.all_with_accepted(true)
}

/// The proxies that are not accepted, in the catalog's order.
pub fn get_all_broken_proxies(catalog: &ProxyCatalog) -> (list: Vec<Socks5ProxyEntry>)
    ensures
        views_of(list@) == with_accepted(catalog@, false),
{
    catalog.all_with_accepted(false)
}

/// One attempt of a race: its place in the race, the proxy it goes through,
/// and how long it waits before it starts, in milliseconds.
#[derive(Debug)]
pub struct RaceAttempt {
    pub index: usize,
    pub socks_addr: String,
    pub socks_cat: String,
    pub initial_delay_ms: u64,
}

/// Delay of the `i`-th attempt of a race: the first delay plus `i` times
/// the stagger, or the largest time where that does not fit.
pub open spec fn race_delay_ms(i: nat) -> u64 {
    if RACE_FIRST_DELAY_MS + RACE_STAGGER_MS * i > u64::MAX {
        u64::MAX
    } else {
        (RACE_FIRST_DELAY_MS + RACE_STAGGER_MS * i) as u64
    }
}

/// The catalog holds an accepted proxy with this address and category.
pub open spec fn is_accepted_proxy(cat: CatalogView, addr: Seq<char>, category: Seq<char>) -> bool {
    exists|c: int|
        0 <= c < cat.len() && (#[trigger] cat[c]).accepted && cat[c].addr == addr
            && cat[c].category == category
}

/// What a proxy's turn in the pool manager's round asks for.
#[derive(Clone, Copy, Debug, PartialEq, Eq)]
pub struct ProxyTurn {
    /// The entry took over event counts that are worth saving.
    pub save: bool,
    /// The proxy is to be checked now.
    pub check: bool,
}

/// Delay of the `i`-th attempt of a race.
pub fn race_delay(i: usize) -> (ms: u64)
    ensures
        ms == race_delay_ms(i as nat),
{
    proof {
        assert(5550 * i <= 5550 * 0xffff_ffff_ffff_ffff) by (nonlinear_arith)
            requires
                i <= 0xffff_ffff_ffff_ffff,
        ;
    }
    let wide: u128 = (RACE_FIRST_DELAY_MS as u128) + (RACE_STAGGER_MS as u128) * (i as u128);
    if wide > u64::MAX as u128 {
        u64::MAX
    } else {
        wide as u64
    }
}

/// The entries at the places `picks` of `working`, in the order of `picks`.
pub fn pick_proxies(working: &Vec<Socks5ProxyEntry>, picks: &Vec<usize>) -> (chosen: Vec<
    Socks5ProxyEntry,
>)
    requires
        forall|k: int| 0 <= k < picks@.len() ==> #[trigger] picks@[k] < working@.len(),
    ensures
        chosen@.len() == picks@.len(),
        forall|k: int|
            0 <= k < chosen@.len() ==> (#[trigger] chosen@[k])@ == working@[picks@[k] as int]@,
{
    let mut chosen: Vec<Socks5ProxyEntry> = Vec::new();
    let mut k: usize = 0;
    while k < picks.len()
        invariant
            k <= picks@.len(),
            chosen@.len() == k,
            forall|j: int| 0 <= j < picks@.len() ==> #[trigger] picks@[j] < working@.len(),
            forall|j: int| 0 <= j < k ==> (#[trigger] chosen@[j])@ == working@[picks@[j] as int]@,
        decreases picks@.len() - k,
    {
        chosen.push(working[picks[k]].clone_entry());
        k += 1;
    }
    chosen
}

/// The sampling weights of `working`, entry by entry.
pub fn proxy_weights(working: &Vec<Socks5ProxyEntry>) -> (weights: Vec<u32>)
    ensures
        weights@.len() == working@.len(),
        forall|k: int|
            0 <= k < weights@.len() ==> #[trigger] weights@[k] == proxy_weight_spec(
                working@[k]@.last_success_count,
                working@[k]@.last_err_count,
            ),
{
    let mut weights: Vec<u32> = Vec::new();
    let mut k: usize = 0;
    while k < working.len()
        invariant
            k <= working@.len(),
            weights@.len() == k,
            forall|j: int|
                0 <= j < k ==> #[trigger] weights@[j] == proxy_weight_spec(
                    working@[j]@.last_success_count,
                    working@[j]@.last_err_count,
                ),
        decreases working@.len() - k,
    {
        weights.push(working[k].weight());
        k += 1;
    }
    weights
}

/// `count` accepted proxies for a download of `_url` (all of them where
/// there are fewer), drawn at random without replacement, each weighted by
/// `proxy_weight_spec`. Every proxy returned is an accepted proxy of the
/// catalog, and none is returned twice.
pub fn get_random_proxies(catalog: &ProxyCatalog, _url: &str, count: u8) -> (chosen: Vec<
    Socks5ProxyEntry,
>)
    requires
        catalog.wf(),
    ensures
        chosen@.len() == (if count < with_accepted(catalog@, true).len() {
            count as nat
        } else {
            with_accepted(catalog@, true).len()
        }),
        forall|k: int|
            0 <= k < chosen@.len() ==> (#[trigger] chosen@[k])@.accepted && catalog@.contains(
                chosen@[k]@,
            ),
        addrs_unique(views_of(chosen@)),
{
    if count == 0 {
        return Vec::new();
    }
    let working = get_all_working_proxies(catalog);
    let amount = if (count as usize) < working.len() {
        count as usize
    } else {
        working.len()
    };
    let weights = proxy_weights(&working);
    proof {
        lemma_with_accepted(catalog@, true);
    }
    match sample_indices_weighted(&weights, amount) {
        Ok(picks) => {
            let chosen = pick_proxies(&working, &picks);
            proof {
                let pool = with_accepted(catalog@, true);
                assert forall|k: int| 0 <= k < chosen@.len() implies (#[trigger] chosen@[k])@.accepted
                    && catalog@.contains(chosen@[k]@) by {
                    let i = picks@[k] as int;
                    assert(views_of(working@)[i] == working@[i]@);
                    assert(pool[i].accepted);
                }
                assert forall|a: int, b: int|
                    0 <= a < chosen@.len() && 0 <= b < chosen@.len() && a != b implies #[trigger] views_of(
                    chosen@,
                )[a].addr != #[trigger] views_of(chosen@)[b].addr by {
                    let i = picks@[a] as int;
                    let j = picks@[b] as int;
                    assert(i != j);
                    assert(views_of(working@)[i] == working@[i]@);
                    assert(views_of(working@)[j] == working@[j]@);
                    assert(pool[i].addr != pool[j].addr);
                }
            }
            chosen
        },
        Err(_) => Vec::new(),
    }
}

/// The attempts of a race for a download of `url`: one through each of up
/// to `retries` accepted proxies drawn by `get_random_proxies`, and a last
/// one through a Tor endpoint drawn from `tor_addr_list`, under the
/// category `tor`. The attempts start staggered by `race_delay_ms`. Without
/// a Tor endpoint there is no race.
pub fn setup_proxy_and_temp(
    catalog: &ProxyCatalog,
    tor_addr_list: &Vec<String>,
    retries: u8,
    url: &str,
) -> (attempts: Option<Vec<RaceAttempt>>)
    requires
        catalog.wf(),
    ensures
        attempts is None <==> tor_addr_list@.len() == 0,
        attempts matches Some(v) ==> {
            &&& v@.len() == 1 || v@.len() == 1 + (if retries < with_accepted(
                catalog@,
                true,
            ).len() {
                retries as nat
            } else {
                with_accepted(catalog@, true).len()
            })
            &&& forall|i: int|
                0 <= i < v@.len() ==> (#[trigger] v@[i]).index == i && v@[i].initial_delay_ms
                    == race_delay_ms(i as nat)
            &&& v@.last().socks_cat@ == "tor"@
            &&& exists|t: int|
                0 <= t < tor_addr_list@.len() && #[trigger] tor_addr_list@[t]@
                    == v@.last().socks_addr@
            &&& forall|i: int|
                0 <= i < v@.len() - 1 ==> is_accepted_proxy(
                    catalog@,
                    (#[trigger] v@[i]).socks_addr@,
                    v@[i].socks_cat@,
                )
            &&& forall|i: int, j: int|
                0 <= i < j < v@.len() - 1 ==> v@[i].socks_addr@ != v@[j].socks_addr@
        },
{
    let tor_addr = match choose_entry(tor_addr_list) {
        Some(addr) => addr.clone(),
        None => { return None; },
    };
    let all_socks = get_random_proxies(catalog, url, retries);
    let mut attempts: Vec<RaceAttempt> = Vec::new();
    let mut i: usize = 0;
    while i < all_socks.len()
        invariant
            i <= all_socks@.len(),
            attempts@.len() == i,
            forall|k: int|
                0 <= k < i ==> (#[trigger] attempts@[k]).index == k && attempts@[k].initial_delay_ms
                    == race_delay_ms(k as nat) && attempts@[k].socks_addr@
                    == all_socks@[k]@.addr && attempts@[k].socks_cat@ == all_socks@[k]@.category,
        decreases all_socks@.len() - i,
    {
        attempts.push(
            RaceAttempt {
                index: i,
                socks_addr: all_socks[i].addr.clone(),
                socks_cat: all_socks[i].category.clone(),
                initial_delay_ms: race_delay(i),
            },
        );
        i += 1;
    }
    let n = attempts.len();
    attempts.push(
        RaceAttempt {
            index: n,
            socks_addr: tor_addr,
            socks_cat: String::from_str("tor"),
            initial_delay_ms: race_delay(n),
        },
    );
    proof {
        let v = attempts@;
        assert(v.len() == all_socks@.len() + 1);
        assert(v.last().socks_cat@ == "tor"@);
        assert(v.last().socks_addr@ == tor_addr@);
        assert(exists|t: int|
            0 <= t < tor_addr_list@.len() && #[trigger] tor_addr_list@[t]@ == v.last().socks_addr@);
        assert forall|i: int| 0 <= i < v.len() implies (#[trigger] v[i]).index == i
            && v[i].initial_delay_ms == race_delay_ms(i as nat) by {}
        assert forall|k: int| 0 <= k < v.len() - 1 implies is_accepted_proxy(
            catalog@,
            (#[trigger] v[k]).socks_addr@,
            v[k].socks_cat@,
        ) by {
            assert(all_socks@[k]@.accepted && catalog@.contains(all_socks@[k]@));
            let c = choose|c: int| 0 <= c < catalog@.len() && catalog@[c] == all_socks@[k]@;
            assert(catalog@[c].accepted);
        }
        assert forall|a: int, b: int| 0 <= a < b < v.len() - 1 implies v[a].socks_addr@
            != v[b].socks_addr@ by {
            assert(views_of(all_socks@)[a].addr != views_of(all_socks@)[b].addr);
        }
    }
    Some(attempts)
}

/// A proxy's turn in the pool manager's round begins at `now`: the entry
/// takes over the event counts that the statistics have for it, if any, and
/// the turn says whether those are worth saving and whether the proxy is
/// to be checked.
pub fn begin_proxy_turn(entry: &mut Socks5ProxyEntry, counts: Option<(u64, u64)>, now: u64) -> (turn:
    ProxyTurn)
    ensures
        final(entry)@ == match counts {
            Some(c) => ProxyEntryView {
                last_success_count: c.0,
                last_err_count: c.1,
                ..old(entry)@
            },
            None => old(entry)@,
        },
        turn.save == (counts matches Some(c) && (c.0 != 0 || c.1 != 0)),
        turn.check == needs_recheck_spec(final(entry)@, now),
{
    let save = match counts {
        Some(c) => entry.record_event_counts(c.0, c.1),
        None => false,
    };
    ProxyTurn { save, check: entry.needs_recheck(now) }
}

/// A proxy's turn ends with the outcome of its check, which ran from
/// `started_at` to `now`: the outcome is recorded, and `true` says that the
/// proxy is to be dropped from the catalog.
pub fn finish_proxy_turn(
    entry: &mut Socks5ProxyEntry,
    ok: bool,
    error: &str,
    remote_ip: String,
    started_at: u64,
    now: u64,
) -> (drop: bool)
    ensures
        final(entry)@ == after_check(old(entry)@, ok, error@, remote_ip@, started_at, now),
        drop == needs_delete_spec(final(entry)@, now),
{
    entry.record_check(ok, error, remote_ip, started_at, now);
    entry.needs_delete(now)
}



/// Most characters of a check's answer that are looked at.
pub const CHECK_RESPONSE_CHARS: usize = 41;

/// The first `max_chars` characters of a text, or all of it where it has
/// fewer.
pub fn truncate(s: &str, max_chars: usize) -> (head: &str)
    ensures
        head@ == s@.take(if s@.len() < max_chars {
            s@.len() as int
        } else {
            max_chars as int
        }),
{
    let n = s.unicode_len();
    let upto = if n < max_chars {
        n
    } else {
        max_chars
    };
    s.substring_char(0, upto)
}

/// What is looked at of the answer to a proxy check: its first
/// `CHECK_RESPONSE_CHARS` characters, trimmed.
pub fn clean_check_response(resp: &str) -> (cleaned: String)
    ensures
        cleaned@ == trimmed(
            resp@.take(
                if resp@.len() < CHECK_RESPONSE_CHARS {
                    resp@.len() as int
                } else {
                    CHECK_RESPONSE_CHARS as int
                },
            ),
        ),
{
    String::from_str(trim_text(truncate(resp, CHECK_RESPONSE_CHARS)))
}

/// Whether the cleaned answer to a proxy check passes: it is an IPv4 or an
/// IPv6 address (which the caller has found out), or the text by which a
/// known censor answers.
pub fn check_response_accepted(cleaned: &str, is_ipv4: bool, is_ipv6: bool) -> (ok: bool)
    ensures
        ok == (is_ipv4 || is_ipv6 || cleaned@ == "阻断未备案"@),
{
    is_ipv4 || is_ipv6 || String::from_str(cleaned) == String::from_str("阻断未备案")
}

/// Why a proxy's attempt could not be counted.
#[derive(Clone, Copy, Debug, PartialEq, Eq, Structural)]
pub enum ProxyStatError {
    /// The URL of the download is no URL.
    BadUrl,
    /// The URL of the download has no domain.
    NoDomain,
}

/// Name of the statistic that counts the attempts of the kind `kind` by
/// proxy address and domain.
pub open spec fn stat_by_addr(kind: Seq<char>) -> Seq<char> {
    "proxy_"@ + kind + "_socksaddr_targetdomain"@
}

/// Name of the statistic that counts the attempts of the kind `kind` by
/// proxy category and domain.
pub open spec fn stat_by_category(kind: Seq<char>) -> Seq<char> {
    "proxy_"@ + kind + "_sockscateg_targetdomain"@
}

/// The event that an attempt counts as.
pub open spec fn attempt_event(success: bool) -> Seq<char> {
    if success {
        "success"@
    } else {
        "fail"@
    }
}

/// The statistics after an attempt of the kind `kind` through the proxy
/// `proxy_addr` of the category `proxy_cat` at `domain`: one more event
/// for the address and one more for the category.
pub open spec fn stats_after_attempt(
    store: StoreView,
    kind: Seq<char>,
    domain: Seq<char>,
    proxy_addr: Seq<char>,
    proxy_cat: Seq<char>,
    success: bool,
    now: u64,
) -> StoreView {
    store_incremented(
        store_incremented(
            store,
            StatKeyView { stat_type: stat_by_addr(kind), item_a: proxy_addr, item_b: domain },
            attempt_event(success),
            now,
        ),
        StatKeyView { stat_type: stat_by_category(kind), item_a: proxy_cat, item_b: domain },
        attempt_event(success),
        now,
    )
}

/// The catalog after an attempt through the proxy `proxy_addr`: its entry
/// records the attempt; a proxy that the catalog does not hold changes
/// nothing.
pub open spec fn catalog_after_attempt(
    cat: CatalogView,
    proxy_addr: Seq<char>,
    success: bool,
    now: u64,
) -> CatalogView {
    if has_addr(cat, proxy_addr) {
        let i = position(cat, proxy_addr);
        cat.update(i, after_attempt(cat[i], success, now))
    } else {
        cat
    }
}

/// Counts an attempt of the kind `kind` (`download` or `parse`) at
/// `domain` through a proxy: in the statistics by address and by category,
/// and in the proxy's entry in the catalog.
pub fn record_proxy_attempt(
    store: &mut StatCounterStore,
    catalog: &mut ProxyCatalog,
    kind: &str,
    domain: &str,
    proxy_addr: &str,
    proxy_cat: &str,
    success: bool,
    now: u64,
)
    requires
        old(store).wf(),
        old(catalog).wf(),
    ensures
        final(store).wf(),
        final(catalog).wf(),
        final(store)@ == stats_after_attempt(
            old(store)@,
            kind@,
            domain@,
            proxy_addr@,
            proxy_cat@,
            success,
            now,
        ),
        final(catalog)@ == catalog_after_attempt(old(catalog)@, proxy_addr@, success, now),
{
    let event = if success {
        "success"
    } else {
        "fail"
    };
    let mut by_addr = String::from_str("proxy_");
    by_addr.append(kind);
    by_addr.append("_socksaddr_targetdomain");
    let mut by_cat = String::from_str("proxy_");
    by_cat.append(kind);
    by_cat.append("_sockscateg_targetdomain");
    proof {
        assert(by_addr@ =~= stat_by_addr(kind@));
        assert(by_cat@ =~= stat_by_category(kind@));
    }
    stat_counter_increment(store, by_addr.as_str(), event, proxy_addr, domain, now);
    stat_counter_increment(store, by_cat.as_str(), event, proxy_cat, domain, now);
    catalog.record_attempt(proxy_addr, success, now);
}

/// Counts an attempt of the kind `kind` for the download of `url` through
/// a proxy, as `record_proxy_attempt` does at the domain of `url`. A `url`
/// that is no URL or has no domain is an error, and nothing is counted.
pub fn proxy_stat_increment(
    store: &mut StatCounterStore,
    catalog: &mut ProxyCatalog,
    kind: &str,
    url: &str,
    proxy_addr: &str,
    proxy_cat: &str,
    success: bool,
    now: u64,
) -> (counted: Result<(), ProxyStatError>)
    requires
        old(store).wf(),
        old(catalog).wf(),
    ensures
        final(store).wf(),
        final(catalog).wf(),
        match url_domain(url@) {
            None => counted == Err::<(), ProxyStatError>(ProxyStatError::BadUrl) && final(store)@
                == old(store)@ && final(catalog)@ == old(catalog)@,
            Some(None) => counted == Err::<(), ProxyStatError>(ProxyStatError::NoDomain)
                && final(store)@ == old(store)@ && final(catalog)@ == old(catalog)@,
            Some(Some(domain)) => counted is Ok && final(store)@ == stats_after_attempt(
                old(store)@,
                kind@,
                domain,
                proxy_addr@,
                proxy_cat@,
                success,
                now,
            ) && final(catalog)@ == catalog_after_attempt(
                old(catalog)@,
                proxy_addr@,
                success,
                now,
            ),
        },
{
    let domain = match domain_of_url(url) {
        Ok(Some(domain)) => domain,
        Ok(None) => { return Err(ProxyStatError::NoDomain); },
        Err(_) => { return Err(ProxyStatError::BadUrl); },
    };
    record_proxy_attempt(
        store,
        catalog,
        kind,
        domain.as_str(),
        proxy_addr,
        proxy_cat,
        success,
        now,
    );
    Ok(())
}

impl Socks5ProxyEntry {
    /// A copy of the entry.
    pub fn clone_entry(&self) -> (copy: Socks5ProxyEntry)
        ensures
            copy@ == self@,
    {
        Socks5ProxyEntry {
            addr: self.addr.clone(),
            category: self.category.clone(),
            last_check: self.last_check,
            last_lag: self.last_lag,
            last_scraped: self.last_scraped,
            last_check_error: self.last_check_error.clone(),
            last_remote_ip: self.last_remote_ip.clone(),
            checked: self.checked,
            accepted: self.accepted,
            created_at: self.created_at,
            failed_checks: self.failed_checks,
            last_success_count: self.last_success_count,
            last_err_count: self.last_err_count,
        }
    }

    /// The entry of a proxy scraped for the first time at `now`.
    pub fn scraped(addr: &str, category: &str, now: u64) -> (e: Socks5ProxyEntry)
        ensures
            e@ == fresh_entry(addr@, category@, now),
    {
        Socks5ProxyEntry {
            addr: String::from_str(addr),
            category: String::from_str(category),
            last_check: None,
            last_lag: None,
            last_scraped: now,
            last_check_error: String::new(),
            last_remote_ip: String::new(),
            checked: false,
            accepted: false,
            created_at: now,
            failed_checks: 0,
            last_success_count: 0,
            last_err_count: 0,
        }
    }

    /// Whether the proxy is to be checked at time `now`.
    pub fn needs_recheck(&self, now: u64) -> (due: bool)
        ensures
            due == needs_recheck_spec(self@, now),
    {
        if !self.checked {
            return true;
        }
        let last: u128 = match self.last_check {
            Some(t) => t as u128,
            None => 0,
        };
        let wait: u128 = ((SCRAPER_REFRESH_MS / 10) as u128) * (3 * (self.failed_checks as u128)
            + 10);
        last + wait < now as u128
    }

    /// Whether the proxy is to be dropped at time `now`.
    pub fn needs_delete(&self, now: u64) -> (drop: bool)
        ensures
            drop == needs_delete_spec(self@, now),
    {
        self.checked && !self.accepted && now > self.last_scraped && now - self.last_scraped
            > ENTRY_DELETE_MS
    }

    /// Records the outcome of a check that ran from `started_at` to `now`:
    /// the proxy counts as checked, is accepted iff the check went well,
    /// and its failed checks in a row are counted or, after a good check,
    /// forgotten.
    pub fn record_check(
        &mut self,
        ok: bool,
        error: &str,
        remote_ip: String,
        started_at: u64,
        now: u64,
    )
        ensures
            final(self)@ == after_check(old(self)@, ok, error@, remote_ip@, started_at, now),
    {
        self.last_check = Some(now);
        self.checked = true;
        self.accepted = ok;
        if ok {
            self.failed_checks = 0;
        } else if self.failed_checks < u8::MAX {
            self.failed_checks = self.failed_checks + 1;
        }
        self.last_lag = Some(
            if now >= started_at {
                now - started_at
            } else {
                0
            },
        );
        let mut text = String::new();
        if !ok {
            text.append("check err: ");
            text.append(error);
        }
        proof {
            if ok {
                assert(text@ =~= Seq::<char>::empty());
            } else {
                assert(text@ =~= "check err: "@ + error@);
            }
        }
        self.last_check_error = text;
        self.last_remote_ip = remote_ip;
    }

    /// Records a download through the proxy at time `now`. One that went
    /// well counts as a check passed. One that did not is counted, and
    /// after more than `MAX_ERRORS_WITHOUT_SUCCESS` of them without a single
    /// success the proxy is no longer accepted.
    pub fn record_attempt(&mut self, success: bool, now: u64)
        ensures
            final(self)@ == after_attempt(old(self)@, success, now),
    {
        if success {
            self.last_check = Some(now);
            if self.last_success_count < u64::MAX {
                self.last_success_count = self.last_success_count + 1;
            }
            self.accepted = true;
        } else {
            if self.last_err_count < u64::MAX {
                self.last_err_count = self.last_err_count + 1;
            }
            if self.last_err_count > MAX_ERRORS_WITHOUT_SUCCESS && self.last_success_count == 0 {
                self.accepted = false;
            }
        }
    }

    /// Takes over the numbers of good and bad downloads from the
    /// statistics; `true` says that there is something to save.
    pub fn record_event_counts(&mut self, success: u64, fail: u64) -> (save: bool)
        ensures
            final(self)@ == (ProxyEntryView {
                last_success_count: success,
                last_err_count: fail,
                ..old(self)@
            }),
            save == (success != 0 || fail != 0),
    {
        self.last_success_count = success;
        self.last_err_count = fail;
        success != 0 || fail != 0
    }

    /// Sampling weight of the proxy.
    pub fn weight(&self) -> (w: u32)
        ensures
            w == proxy_weight_spec(self@.last_success_count, self@.last_err_count),
    {
        proxy_weight(self.last_success_count, self.last_err_count)
    }
}

/// Whether a source that was last scraped at `last_refresh` is scraped at
/// `now`.
pub fn should_refresh(last_refresh: Option<u64>, now: u64) -> (due: bool)
    ensures
        due == should_refresh_spec(last_refresh, now),
{
    match last_refresh {
        Some(t) => (t as u128) + (SCRAPER_REFRESH_MS as u128) < now as u128,
        None => true,
    }
}

/// Sampling weight for `success` good and `err` bad downloads.
pub fn proxy_weight(success: u64, err: u64) -> (w: u32)
    ensures
        w == proxy_weight_spec(success, err),
        (w as int) < 0x8000_0000,
{
    let num: u128 = (1 + 2 * (success as u128)) * (WEIGHT_ONE as u128);
    let den: u128 = 1 + (success as u128) + (err as u128);
    let q: u128 = num / den;
    proof {
        assert(q < 0x8000_0000) by (nonlinear_arith)
            requires
                num == (1 + 2 * (success as int)) * 0x4000_0000,
                den == 1 + (success as int) + (err as int),
                q == num / den,
                success >= 0,
                err >= 0,
        {
            assert(num < 0x8000_0000 * den);
        }
    }
    q as u32
}

} // verus!
