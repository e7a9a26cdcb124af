//! The durable download cache, one request at a time: what the cache holds
//! for a request, what a call for the request answers, what the download
//! loop does with the pending queue, and what becomes of the request when an
//! attempt is over. Storage and network stay outside: they hand in what
//! they read and carry out what is answered.

use crate::text::{decimal, push_decimal};
use vstd::prelude::*;
use vstd::string::*;

verus! {

/// Attempts after which a request is given up, unless its kind says
/// otherwise.
pub const DEFAULT_RETRY_COUNT: u8 = 3;

/// Seconds a failed request waits per failure before it is queued again.
pub const REQUEUE_DELAY_SECS: u64 = 15;

/// The durable record of a request: the parsed result once an attempt has
/// won, else the text of what went wrong so far and how often.
#[derive(Debug)]
pub struct DownloadEntry<T> {
    pub parse_result: Option<T>,
    pub error_txt: String,
    pub fail_count: u8,
}

/// What the cache holds for one request: its entry in the final tree, and
/// its entry in the pending queue, which says whether an attempt is
/// running.
#[derive(Debug)]
pub struct RequestRecord<T> {
    pub final_entry: Option<DownloadEntry<T>>,
    pub pending: Option<bool>,
}

/// What was found at the request's final path.
#[derive(Debug)]
pub enum FileProbe<T> {
    /// No file.
    Missing,
    /// A file that parses.
    Parsed(T),
    /// A file that does not parse.
    Unparseable,
}

/// Answer to a call for a request.
#[derive(Debug)]
pub enum DownloadOutcome {
    /// The request is not valid; nothing was looked up.
    Invalid,
    /// The record holds the parsed result.
    Found,
    /// The record holds this error.
    Failed(String),
    /// The request was queued; the caller asks again later. `delete_file`
    /// says that a file at the final path did not parse and is to be
    /// deleted.
    Pending { message: String, delete_file: bool },
}

/// What becomes of a request after an attempt.
#[derive(Clone, Copy, Debug, PartialEq, Eq, Structural)]
pub enum FollowUp {
    /// No attempt was running for this request; nothing changed.
    Ignored,
    /// The attempt won; the request left the queue.
    Done,
    /// The attempt failed once too often; the request left the queue and
    /// its error stays.
    GivenUp,
    /// The attempt failed; the request is queued again after this many
    /// seconds.
    RetryAfter(u64),
}

/// The record holds a parsed result.
pub open spec fn has_result<T>(r: RequestRecord<T>) -> bool {
    r.final_entry matches Some(e) && e.parse_result is Some
}

/// What is kept of every record: a queued request has an entry in the final
/// tree, and a request with a parsed result is not queued.
pub open spec fn record_wf<T>(r: RequestRecord<T>) -> bool {
    &&& r.pending is Some ==> r.final_entry is Some
    &&& has_result(r) ==> r.pending is None
}

/// Error text of a request that was just queued for its `attempt`-th try.
pub open spec fn pending_text(attempt: nat, old_err: Seq<char>) -> Seq<char> {
    "pending (try #"@ + decimal(attempt) + ")...\n\n"@ + old_err
}

/// Message for the caller of a request that was just queued.
pub open spec fn queued_text(old_err: Seq<char>) -> Seq<char> {
    "just added to pending, plz wait. "@ + old_err
}

/// Error text after the `attempt`-th attempt failed with `err`: what was
/// there, and the latest failure appended.
pub open spec fn failure_text(old_err: Seq<char>, attempt: nat, err: Seq<char>) -> Seq<char> {
    old_err + "download attempt #"@ + decimal(attempt) + " failed: "@ + err + "\n"@
}

/// Failures counted so far.
pub open spec fn fail_count_of<T>(r: RequestRecord<T>) -> u8 {
    match r.final_entry {
        Some(e) => e.fail_count,
        None => 0,
    }
}

/// Error text kept so far.
pub open spec fn error_of<T>(r: RequestRecord<T>) -> Seq<char> {
    match r.final_entry {
        Some(e) => e.error_txt@,
        None => Seq::empty(),
    }
}

/// One more failure, as far as the counter goes.
pub open spec fn next_fail_count(n: u8) -> u8 {
    if n < u8::MAX {
        (n + 1) as u8
    } else {
        u8::MAX
    }
}


/// What a call for a request does to its record `r` and answers.
pub open spec fn download_post<T>(
    valid: bool,
    r: RequestRecord<T>,
    probe: FileProbe<T>,
    r2: RequestRecord<T>,
    out: DownloadOutcome,
) -> bool {
    &&& !valid ==> out is Invalid && r2 == r
    &&& valid && r.final_entry is Some ==> r2 == r
    &&& valid && has_result(r) ==> out is Found
    &&& valid && r.final_entry is Some && !has_result(r) ==> (
    out matches DownloadOutcome::Failed(text) && text@ == r.final_entry->0.error_txt@)
    &&& valid && r.final_entry is None ==> match probe {
        FileProbe::Parsed(parsed) => {
            &&& out is Found
            &&& r2.pending == r.pending
            &&& r2.final_entry matches Some(e) && e.parse_result == Some(parsed) && e.error_txt@
                == Seq::<char>::empty() && e.fail_count == 0
        },
        _ => {
            &&& out matches DownloadOutcome::Pending { message, delete_file } && message@
                == queued_text(Seq::empty()) && delete_file == (probe is Unparseable)
            &&& r2.pending == Some(false)
            &&& r2.final_entry matches Some(e) && e.parse_result is None && e.error_txt@
                == pending_text(1, Seq::empty()) && e.fail_count == 0
        },
    }
}

/// What the start of the download loop does to a record.
pub open spec fn reset_post<T>(r: RequestRecord<T>, r2: RequestRecord<T>) -> bool {
    &&& r2.final_entry == r.final_entry
    &&& r2.pending == if r.pending is Some {
        Some(false)
    } else {
        None
    }
}

/// What a tick of the download loop does to a record, and whether it
/// starts an attempt.
pub open spec fn claim_post<T>(r: RequestRecord<T>, r2: RequestRecord<T>, dispatch: bool) -> bool {
    &&& r2.final_entry == r.final_entry
    &&& dispatch == (r.pending == Some(false))
    &&& r2.pending == if dispatch {
        Some(true)
    } else {
        r.pending
    }
}

/// What the end of an attempt does to a record, and what follows.
pub open spec fn attempt_post<T>(
    r: RequestRecord<T>,
    parsed: Result<T, String>,
    retry_count: u8,
    r2: RequestRecord<T>,
    next: FollowUp,
) -> bool {
    &&& r.pending != Some(true) ==> next is Ignored && r2 == r
    &&& r.pending == Some(true) ==> match parsed {
        Ok(res) => {
            &&& next is Done
            &&& r2.pending is None
            &&& r2.final_entry matches Some(e) && e.parse_result == Some(res) && e.error_txt@
                == Seq::<char>::empty() && e.fail_count == 0
        },
        Err(err) => {
            let fails = next_fail_count(fail_count_of(r));
            &&& r2.final_entry matches Some(e) && e.parse_result is None && e.fail_count == fails
                && e.error_txt@ == failure_text(error_of(r), fails as nat, err@)
            &&& fails >= retry_count ==> next is GivenUp && r2.pending is None
            &&& fails < retry_count ==> next == FollowUp::RetryAfter(
                (REQUEUE_DELAY_SECS * fails) as u64,
            ) && r2.pending == Some(true)
        },
    }
}

/// What the end of the delay after a failed attempt does to a record.
pub open spec fn requeue_post<T>(r: RequestRecord<T>, r2: RequestRecord<T>) -> bool {
    &&& r2.final_entry == r.final_entry
    &&& r2.pending == if r.pending == Some(true) {
        Some(false)
    } else {
        r.pending
    }
}

/// `r2` is what one of the five operations of the cache makes of `r`.
pub open spec fn record_step<T>(r: RequestRecord<T>, r2: RequestRecord<T>) -> bool {
    ||| exists|valid: bool, probe: FileProbe<T>, out: DownloadOutcome|
        #[trigger] download_post(valid, r, probe, r2, out)
    ||| reset_post(r, r2)
    ||| exists|dispatch: bool| #[trigger] claim_post(r, r2, dispatch)
    ||| exists|parsed: Result<T, String>, retry_count: u8, next: FollowUp|
        #[trigger] attempt_post(r, parsed, retry_count, r2, next)
    ||| requeue_post(r, r2)
}

/// `trace` is a life of one record: each state comes from the one before
/// by one operation of the cache.
pub open spec fn is_record_trace<T>(trace: Seq<RequestRecord<T>>) -> bool {
    forall|i: int| 0 <= i < trace.len() - 1 ==> record_step(#[trigger] trace[i], trace[i + 1])
}

/// Number of times the record goes from having no result to having one.
pub open spec fn wins<T>(trace: Seq<RequestRecord<T>>) -> nat
    decreases trace.len(),
{
    if trace.len() < 2 {
        0
    } else {
        wins(trace.drop_last()) + if !has_result(trace[trace.len() - 2]) && has_result(
            trace.last(),
        ) {
            1nat
        } else {
            0nat
        }
    }
}

/// Whether a call for a request has to look at the file at its final path:
/// the request is valid and the final tree has no entry for it.
pub fn needs_file_probe<T>(valid: bool, record: &RequestRecord<T>) -> (yes: bool)
    ensures
        yes == (valid && record.final_entry is None),
{
    valid && record.final_entry.is_none()
}

/// A call for a request. An invalid request is refused. A request with an
/// entry in the final tree is answered from it, result or error. Else the
/// file at the final path decides: one that parses gives the request its
/// result at once; otherwise the request is queued, not running, with a
/// note in the final tree, and a file that did not parse is to be deleted.
/// `probe` is looked at only where `needs_file_probe` says so.
pub fn download2<T>(valid: bool, record: &mut RequestRecord<T>, probe: FileProbe<T>) -> (out:
    DownloadOutcome)
    requires
        record_wf(*old(record)),
    ensures
        record_wf(*final(record)),
        download_post(valid, *old(record), probe, *final(record), out),
{
    if !valid {
        return DownloadOutcome::Invalid;
    }
    match &record.final_entry {
        Some(entry) => {
            if entry.parse_result.is_some() {
                return DownloadOutcome::Found;
            } else {
                return DownloadOutcome::Failed(entry.error_txt.clone());
            }
        },
        None => {},
    }
    match probe {
        FileProbe::Parsed(parsed) => {
            record.final_entry = Some(
                DownloadEntry { parse_result: Some(parsed), error_txt: String::new(), fail_count: 0 },
            );
            DownloadOutcome::Found
        },
        other => {
            let delete_file = match other {
                FileProbe::Unparseable => true,
                _ => false,
            };
            record.pending = Some(false);
            let mut note = String::new();
            note.append("pending (try #");
            push_decimal(&mut note, 1);
            note.append(")...\n\n");
            let mut message = String::new();
            message.append("just added to pending, plz wait. ");
            proof {
                assert(note@ =~= pending_text(1, Seq::empty()));
                assert(message@ =~= queued_text(Seq::empty()));
            }
            record.final_entry = Some(
                DownloadEntry { parse_result: None, error_txt: note, fail_count: 0 },
            );
            DownloadOutcome::Pending { message, delete_file }
        },
    }
}

/// The download loop starts: a request that was running when the process
/// stopped is not running now.
pub fn reset_pending_on_startup<T>(record: &mut RequestRecord<T>)
    requires
        record_wf(*old(record)),
    ensures
        record_wf(*final(record)),
        reset_post(*old(record), *final(record)),
{
    if record.pending.is_some() {
        record.pending = Some(false);
    }
}

/// The download loop ticks: a queued request that is not running is marked
/// as running, and `true` says that an attempt is to be started for it.
pub fn claim_pending<T>(record: &mut RequestRecord<T>) -> (dispatch: bool)
    requires
        record_wf(*old(record)),
    ensures
        record_wf(*final(record)),
        claim_post(*old(record), *final(record), dispatch),
{
    match record.pending {
        Some(false) => {
            record.pending = Some(true);
            true
        },
        _ => false,
    }
}

/// An attempt for a running request is over. A win writes the result, with
/// no error and no failures, and takes the request out of the queue. A loss
/// counts one more failure and appends its error; the request leaves the
/// queue where it has failed `retry_count` times, else it stays marked as
/// running until `requeue` is called after the delay returned. Where no
/// attempt was running for the request, nothing is written.
pub fn do_download<T>(
    record: &mut RequestRecord<T>,
    parsed: Result<T, String>,
    retry_count: u8,
) -> (next: FollowUp)
    requires
        record_wf(*old(record)),
    ensures
        record_wf(*final(record)),
        attempt_post(*old(record), parsed, retry_count, *final(record), next),
{
    match record.pending {
        Some(true) => {},
        _ => { return FollowUp::Ignored; },
    }
    match parsed {
        Ok(res) => {
            record.final_entry = Some(
                DownloadEntry { parse_result: Some(res), error_txt: String::new(), fail_count: 0 },
            );
            record.pending = None;
            FollowUp::Done
        },
        Err(err) => {
            let old_entry = record.final_entry.take();
            let (mut text, old_fails) = match old_entry {
                Some(e) => (e.error_txt, e.fail_count),
                None => (String::new(), 0u8),
            };
            let fails: u8 = if old_fails < u8::MAX {
                old_fails + 1
            } else {
                u8::MAX
            };
            let ghost old_text = text@;
            text.append("download attempt #");
            push_decimal(&mut text, fails as u64);
            text.append(" failed: ");
            text.append(err.as_str());
            text.append("\n");
            proof {
                assert(text@ =~= failure_text(old_text, fails as nat, err@));
            }
            record.final_entry = Some(
                DownloadEntry { parse_result: None, error_txt: text, fail_count: fails },
            );
            if fails >= retry_count {
                record.pending = None;
                FollowUp::GivenUp
            } else {
                FollowUp::RetryAfter(REQUEUE_DELAY_SECS * (fails as u64))
            }
        },
    }
}

/// The delay after a failed attempt is over: the request is queued again,
/// not running.
pub fn requeue<T>(record: &mut RequestRecord<T>)
    requires
        record_wf(*old(record)),
    ensures
        record_wf(*final(record)),
        requeue_post(*old(record), *final(record)),
{
    match record.pending {
        Some(true) => {
            record.pending = Some(false);
        },
        _ => {},
    }
}



/// Name of the cache tree of the kind `tree_type` (`final` or `pending`)
/// for requests of the type `request_type` whose results are of the type
/// `parse_type`, at version `version` of the request type:
/// `<request_type>__<parse_type>__<tree_type>_v<version>`.
pub open spec fn table_name(
    request_type: Seq<char>,
    parse_type: Seq<char>,
    tree_type: Seq<char>,
    version: u64,
) -> Seq<char> {
    request_type + "__"@ + parse_type + "__"@ + tree_type + "_v"@ + decimal(version as nat)
}

/// Name of a cache tree, as `table_name` has it. A change of the request
/// type, of the result type or of the version gives another tree.
pub fn get_table_name(request_type: &str, parse_type: &str, tree_type: &str, version: u64) -> (name:
    String)
    ensures
        name@ == table_name(request_type@, parse_type@, tree_type@, version),
{
    let mut name = String::from_str(request_type);
    name.append("__");
    name.append(parse_type);
    name.append("__");
    name.append(tree_type);
    name.append("_v");
    push_decimal(&mut name, version);
    proof {
        assert(name@ =~= table_name(request_type@, parse_type@, tree_type@, version));
    }
    name
}


/// The kinds of request that the cache knows.
#[derive(Clone, Copy, Debug, PartialEq, Eq, Structural)]
pub enum RequestKind {
    /// A tile of a tile server; nothing is kept of it but the file.
    Tile,
    /// A search for a place; the places found are kept.
    GeoSearch,
    /// A segment of map data; its size is kept.
    OvertureSegment,
}

/// Attempts after which a request of this kind is given up.
pub open spec fn retry_count_of(kind: RequestKind) -> u8 {
    match kind {
        RequestKind::Tile => DEFAULT_RETRY_COUNT,
        RequestKind::GeoSearch => DEFAULT_RETRY_COUNT,
        RequestKind::OvertureSegment => 2,
    }
}

/// Version of the cache trees of this kind.
pub open spec fn version_of(kind: RequestKind) -> u64 {
    match kind {
        RequestKind::Tile => 0,
        RequestKind::GeoSearch => 0,
        RequestKind::OvertureSegment => 3,
    }
}

/// Name of the request type of this kind.
pub open spec fn request_type_of(kind: RequestKind) -> Seq<char> {
    match kind {
        RequestKind::Tile => "TileFetchId"@,
        RequestKind::GeoSearch => "OSMGeolocationSearchQuery"@,
        RequestKind::OvertureSegment => "OvertureMapsSegment"@,
    }
}

/// Name of the result type of this kind.
pub open spec fn parse_type_of(kind: RequestKind) -> Seq<char> {
    match kind {
        RequestKind::Tile => "()"@,
        RequestKind::GeoSearch => "Vec<OSMGeolocationSearchResult>"@,
        RequestKind::OvertureSegment => "GeoDuckSegmentSummary"@,
    }
}

impl RequestKind {
    /// Attempts after which a request of this kind is given up.
    pub fn get_retry_count(self) -> (n: u8)
        ensures
            n == retry_count_of(self),
    {
        match self {
            RequestKind::Tile => DEFAULT_RETRY_COUNT,
            RequestKind::GeoSearch => DEFAULT_RETRY_COUNT,
            RequestKind::OvertureSegment => 2,
        }
    }

    /// Version of the cache trees of this kind.
    pub fn get_version(self) -> (v: u64)
        ensures
            v == version_of(self),
    {
        match self {
            RequestKind::Tile => 0,
            RequestKind::GeoSearch => 0,
            RequestKind::OvertureSegment => 3,
        }
    }

    /// Name of the cache tree of the kind `tree_type` for requests of this
    /// kind.
    pub fn get_table_name(self, tree_type: &str) -> (name: String)
        ensures
            name@ == table_name(
                request_type_of(self),
                parse_type_of(self),
                tree_type@,
                version_of(self),
            ),
    {
        let version = self.get_version();
        match self {
            RequestKind::Tile => get_table_name("TileFetchId", "()", tree_type, version),
            RequestKind::GeoSearch => get_table_name(
                "OSMGeolocationSearchQuery",
                "Vec<OSMGeolocationSearchResult>",
                tree_type,
                version,
            ),
            RequestKind::OvertureSegment => get_table_name(
                "OvertureMapsSegment",
                "GeoDuckSegmentSummary",
                tree_type,
                version,
            ),
        }
    }
}


/// Which download loops are running: one per kind of request, started
/// when the first request of the kind is called for.
#[derive(Clone, Copy, Debug, PartialEq, Eq, Structural)]
pub struct FetcherRegistry {
    tile: bool,
    geo_search: bool,
    overture_segment: bool,
}

impl FetcherRegistry {
    /// Whether the loop for `kind` was started.
    pub closed spec fn started(self, kind: RequestKind) -> bool {
        match kind {
            RequestKind::Tile => self.tile,
            RequestKind::GeoSearch => self.geo_search,
            RequestKind::OvertureSegment => self.overture_segment,
        }
    }

    /// A registry in which no loop was started.
    pub fn new() -> (registry: FetcherRegistry)
        ensures
            forall|kind: RequestKind| !#[trigger] registry.started(kind),
    {
        FetcherRegistry { tile: false, geo_search: false, overture_segment: false }
    }

    /// Makes sure that the loop for `kind` runs: `true` says that it was
    /// not started yet and the caller starts it now; from then on the
    /// answer for this kind is `false`. The other kinds stay as they are.
    pub fn ensure_spawned_download_loop(&mut self, kind: RequestKind) -> (spawn: bool)
        ensures
            spawn == !old(self).started(kind),
            final(self).started(kind),
            forall|other: RequestKind|
                other != kind ==> #[trigger] final(self).started(other) == old(self).started(other),
    {
        match kind {
            RequestKind::Tile => {
                let spawn = !self.tile;
                self.tile = true;
                spawn
            },
            RequestKind::GeoSearch => {
                let spawn = !self.geo_search;
                self.geo_search = true;
                spawn
            },
            RequestKind::OvertureSegment => {
                let spawn = !self.overture_segment;
                self.overture_segment = true;
                spawn
            },
        }
    }
}

/// Makes a record that was read from storage obey `record_wf`: a request
/// with a result, or without any entry in the final tree, is not queued. A
/// record that obeys it stays as it is.
pub fn repair_record<T>(record: &mut RequestRecord<T>)
    ensures
        record_wf(*final(record)),
        final(record).final_entry == old(record).final_entry,
        record_wf(*old(record)) ==> *final(record) == *old(record),
        !record_wf(*old(record)) ==> final(record).pending is None,
{
    let queued = record.pending.is_some();
    let keep = match &record.final_entry {
        Some(entry) => entry.parse_result.is_none(),
        None => false,
    };
    if queued && !keep {
        record.pending = None;
    }
}

/// The download loop starts: no request of the queue is running.
pub fn download_loop_startup(running: &mut Vec<bool>)
    ensures
        final(running)@.len() == old(running)@.len(),
        forall|i: int| 0 <= i < final(running)@.len() ==> !(#[trigger] final(running)@[i]),
{
    let n = running.len();
    let mut i: usize = 0;
    while i < n
        invariant
            i <= n,
            n == running@.len(),
            forall|k: int| 0 <= k < i ==> !(#[trigger] running@[k]),
        decreases n - i,
    {
        running[i] = false;
        i += 1;
    }
}

/// One round of the download loop: every request of the queue that is
/// not running is marked as running, and the places of those requests are
/// returned, in order; an attempt is to be started for each of them.
pub fn download_loop(running: &mut Vec<bool>) -> (batch: Vec<usize>)
    ensures
        final(running)@.len() == old(running)@.len(),
        forall|i: int| 0 <= i < final(running)@.len() ==> #[trigger] final(running)@[i],
        forall|k: int|
            0 <= k < batch@.len() ==> (#[trigger] batch@[k]) < old(running)@.len() && !old(
                running,
            )@[batch@[k] as int],
        forall|j: int, k: int| 0 <= j < k < batch@.len() ==> batch@[j] < batch@[k],
        forall|i: int|
            0 <= i < old(running)@.len() && !(#[trigger] old(running)@[i]) ==> batch@.contains(
                i as usize,
            ),
{
    let n = running.len();
    let mut batch: Vec<usize> = Vec::new();
    let mut i: usize = 0;
    while i < n
        invariant
            i <= n,
            n == running@.len(),
            n == old(running)@.len(),
            forall|k: int| 0 <= k < i ==> #[trigger] running@[k],
            forall|k: int| i <= k < n ==> #[trigger] running@[k] == old(running)@[k],
            forall|k: int|
                0 <= k < batch@.len() ==> (#[trigger] batch@[k]) < i && !old(running)@[batch@[k] as int],
            forall|j: int, k: int| 0 <= j < k < batch@.len() ==> batch@[j] < batch@[k],
            forall|m: int|
                0 <= m < i && !(#[trigger] old(running)@[m]) ==> batch@.contains(m as usize),
        decreases n - i,
    {
        if !running[i] {
            let ghost before = batch@;
            batch.push(i);
            running[i] = true;
            proof {
                assert(batch@[before.len() as int] == i);
                assert forall|m: int| 0 <= m < i + 1 && !(#[trigger] old(running)@[m]) implies batch@.contains(
                    m as usize,
                ) by {
                    if m < i {
                        assert(before.contains(m as usize));
                        let k = choose|k: int| 0 <= k < before.len() && before[k] == m as usize;
                        assert(batch@[k] == m as usize);
                    }
                }
            }
        }
        i += 1;
    }
    batch
}

/// A race of attempts for one download, as a value: which attempts are
/// over, the errors of those that failed, in the order in which they
/// failed, and the attempt that won.
pub struct RaceView {
    pub finished: Seq<bool>,
    pub errors: Seq<Seq<char>>,
    pub winner: Option<usize>,
}

/// Where a race stands.
#[derive(Clone, Copy, Debug, PartialEq, Eq, Structural)]
pub enum RaceVerdict {
    /// No attempt has won, and some are still running.
    Running,
    /// This attempt won.
    Won(usize),
    /// Every attempt failed.
    Lost,
}

/// A race of attempts for one download: the first attempt to succeed wins.
#[derive(Debug)]
pub struct DownloadRace {
    finished: Vec<bool>,
    errors: Vec<String>,
    winner: Option<usize>,
}

impl View for DownloadRace {
    type V = RaceView;

    closed spec fn view(&self) -> RaceView {
        RaceView {
            finished: self.finished@,
            errors: Seq::new(self.errors@.len(), |i: int| self.errors@[i]@),
            winner: self.winner,
        }
    }
}

/// Every attempt of the race is over.
pub open spec fn all_finished(r: RaceView) -> bool {
    forall|i: int| 0 <= i < r.finished.len() ==> #[trigger] r.finished[i]
}

/// Where the race stands.
pub open spec fn verdict_of(r: RaceView) -> RaceVerdict {
    match r.winner {
        Some(w) => RaceVerdict::Won(w),
        None => if all_finished(r) {
            RaceVerdict::Lost
        } else {
            RaceVerdict::Running
        },
    }
}

/// The race after attempt `attempt` ended, well (`ok`) or with `error`.
/// Nothing changes once an attempt has won, nor for an attempt that the
/// race does not have or that was over before.
pub open spec fn race_after(r: RaceView, attempt: usize, ok: bool, error: Seq<char>) -> RaceView {
    if r.winner is Some || attempt >= r.finished.len() || r.finished[attempt as int] {
        r
    } else if ok {
        RaceView { finished: r.finished.update(attempt as int, true), winner: Some(attempt), ..r }
    } else {
        RaceView {
            finished: r.finished.update(attempt as int, true),
            errors: r.errors.push(error),
            ..r
        }
    }
}

/// The text of a lost race: a head line, and the errors of the attempts,
/// one per line.
pub open spec fn lost_text(errors: Seq<Seq<char>>) -> Seq<char>
    decreases errors.len(),
{
    if errors.len() == 0 {
        "err: cannot download. see below: \n"@
    } else {
        lost_text(errors.drop_last()) + errors.last() + "\n"@
    }
}

impl DownloadRace {
    /// The winner, if there is one, is an attempt of the race that is over.
    pub open spec fn wf(&self) -> bool {
        self@.winner matches Some(w) ==> w < self@.finished.len() && self@.finished[w as int]
    }

    /// A race of `attempts` attempts, none of them over.
    pub fn new(attempts: usize) -> (race: DownloadRace)
        ensures
            race.wf(),
            race@.finished.len() == attempts,
            forall|i: int| 0 <= i < attempts ==> !(#[trigger] race@.finished[i]),
            race@.errors.len() == 0,
            race@.winner is None,
    {
        let mut finished: Vec<bool> = Vec::new();
        let mut i: usize = 0;
        while i < attempts
            invariant
                i <= attempts,
                finished@.len() == i,
                forall|k: int| 0 <= k < i ==> !(#[trigger] finished@[k]),
            decreases attempts - i,
        {
            finished.push(false);
            i += 1;
        }
        DownloadRace { finished, errors: Vec::new(), winner: None }
    }

    /// Where the race stands.
    pub fn verdict(&self) -> (v: RaceVerdict)
        ensures
            v == verdict_of(self@),
    {
        match self.winner {
            Some(w) => RaceVerdict::Won(w),
            None => {
                let mut i: usize = 0;
                while i < self.finished.len()
                    invariant
                        i <= self.finished@.len(),
                        self.winner is None,
                        forall|k: int| 0 <= k < i ==> #[trigger] self.finished@[k],
                    decreases self.finished@.len() - i,
                {
                    if !self.finished[i] {
                        proof {
                            assert(!self@.finished[i as int]);
                            assert(!all_finished(self@));
                        }
                        return RaceVerdict::Running;
                    }
                    i += 1;
                }
                RaceVerdict::Lost
            },
        }
    }

    /// Attempt `attempt` is over, well (`ok`) or with `error`. The first
    /// attempt that ends well wins, and from then on the race stays as it
    /// is: the other attempts are to be aborted, and what they report is
    /// not taken. Returns where the race stands now.
    pub fn attempt_finished(&mut self, attempt: usize, ok: bool, error: &str) -> (v: RaceVerdict)
        requires
            old(self).wf(),
        ensures
            final(self).wf(),
            final(self)@ == race_after(old(self)@, attempt, ok, error@),
            v == verdict_of(final(self)@),
    {
        if self.winner.is_none() && attempt < self.finished.len() && !self.finished[attempt] {
            self.finished[attempt] = true;
            if ok {
                self.winner = Some(attempt);
            } else {
                self.errors.push(String::from_str(error));
            }
            proof {
                assert(self@.errors =~= race_after(old(self)@, attempt, ok, error@).errors);
            }
        } else {
            proof {
                assert(self@.errors =~= old(self)@.errors);
            }
        }
        self.verdict()
    }

    /// The attempts that did not win, in order: their downloads are to be
    /// aborted and their temporary files deleted.
    pub fn losers(&self) -> (rest: Vec<usize>)
        ensures
            forall|k: int|
                0 <= k < rest@.len() ==> (#[trigger] rest@[k]) < self@.finished.len()
                    && self@.winner != Some(rest@[k]),
            forall|j: int, k: int| 0 <= j < k < rest@.len() ==> rest@[j] < rest@[k],
            forall|i: int|
                0 <= i < self@.finished.len() && self@.winner != Some(i as usize)
                    ==> #[trigger] rest@.contains(i as usize),
    {
        let mut rest: Vec<usize> = Vec::new();
        let mut i: usize = 0;
        while i < self.finished.len()
            invariant
                i <= self.finished@.len(),
                forall|k: int|
                    0 <= k < rest@.len() ==> (#[trigger] rest@[k]) < i && self@.winner != Some(
                        rest@[k],
                    ),
                forall|j: int, k: int| 0 <= j < k < rest@.len() ==> rest@[j] < rest@[k],
                forall|m: int|
                    0 <= m < i && self@.winner != Some(m as usize) ==> #[trigger] rest@.contains(
                        m as usize,
                    ),
            decreases self.finished@.len() - i,
        {
            let is_winner = match self.winner {
                Some(w) => w == i,
                None => false,
            };
            if !is_winner {
                let ghost before = rest@;
                rest.push(i);
                proof {
                    assert(rest@[before.len() as int] == i);
                    assert forall|m: int|
                        0 <= m < i + 1 && self@.winner != Some(m as usize) implies #[trigger] rest@.contains(
                        m as usize,
                    ) by {
                        if m < i {
                            assert(before.contains(m as usize));
                            let k = choose|k: int| 0 <= k < before.len() && before[k] == m as usize;
                            assert(rest@[k] == m as usize);
                        }
                    }
                }
            }
            i += 1;
        }
        rest
    }

    /// The text of a lost race.
    pub fn error_text(&self) -> (text: String)
        ensures
            text@ == lost_text(self@.errors),
    {
        let mut text = String::from_str("err: cannot download. see below: \n");
        let mut i: usize = 0;
        proof {
            assert(self@.errors.take(0) =~= Seq::<Seq<char>>::empty());
        }
        while i < self.errors.len()
            invariant
                i <= self.errors@.len(),
                text@ == lost_text(self@.errors.take(i as int)),
            decreases self.errors@.len() - i,
        {
            proof {
                assert(self@.errors.take(i + 1).drop_last() =~= self@.errors.take(i as int));
                assert(self@.errors.take(i + 1).last() == self.errors@[i as int]@);
            }
            text.append(self.errors[i].as_str());
            text.append("\n");
            i += 1;
        }
        proof {
            assert(self@.errors.take(self@.errors.len() as int) =~= self@.errors);
        }
        text
    }
}

/// At most one winner in a race: once an attempt has won, whatever ends
/// afterwards leaves the race as it is.
pub proof fn lemma_race_winner_stays(r: RaceView, attempt: usize, ok: bool, error: Seq<char>)
    requires
        r.winner is Some,
    ensures
        race_after(r, attempt, ok, error) == r,
{
}

/// No lost retries: when an attempt for a running request fails and the
/// request has then failed fewer than `retry_count` times, a retry is
/// announced, and once the delay is over the request stands in the queue
/// again, not running, with its failures counted.
pub proof fn lemma_no_lost_retries<T>(
    r: RequestRecord<T>,
    err: String,
    retry_count: u8,
    r2: RequestRecord<T>,
    next: FollowUp,
    r3: RequestRecord<T>,
)
    requires
        record_wf(r),
        r.pending == Some(true),
        next_fail_count(fail_count_of(r)) < retry_count,
        attempt_post(r, Err(err), retry_count, r2, next),
        requeue_post(r2, r3),
    ensures
        next is RetryAfter,
        r3.pending == Some(false),
        fail_count_of(r3) == next_fail_count(fail_count_of(r)),
        !has_result(r3),
{
}


/// A failed attempt gives no result: after an attempt that ended with an
/// error, a request that had no result has none.
pub proof fn lemma_failed_attempt_gives_no_result<T>(
    r: RequestRecord<T>,
    err: String,
    retry_count: u8,
    r2: RequestRecord<T>,
    next: FollowUp,
)
    requires
        record_wf(r),
        !has_result(r),
        attempt_post(r, Err(err), retry_count, r2, next),
    ensures
        !has_result(r2),
{
}

/// No lost retries across a restart: a request that was running or waiting
/// out its delay when the process stopped is queued, not running, when the
/// download loop starts again.
pub proof fn lemma_restart_requeues<T>(r: RequestRecord<T>, r2: RequestRecord<T>)
    requires
        r.pending is Some,
        reset_post(r, r2),
    ensures
        r2.pending == Some(false),
        r2.final_entry == r.final_entry,
{
}

/// Every operation of the cache keeps the invariant of the record.
pub proof fn lemma_step_keeps_record_wf<T>(r: RequestRecord<T>, r2: RequestRecord<T>)
    requires
        record_wf(r),
        record_step(r, r2),
    ensures
        record_wf(r2),
{
}

/// A result is final: no operation of the cache changes the entry of a
/// request that has its parsed result.
pub proof fn lemma_result_is_final<T>(r: RequestRecord<T>, r2: RequestRecord<T>)
    requires
        record_wf(r),
        has_result(r),
        record_step(r, r2),
    ensures
        r2.final_entry == r.final_entry,
        has_result(r2),
{
}

/// At most one winner: over the whole life of a record, it goes from
/// having no result to having one at most once.
pub proof fn lemma_at_most_one_winner<T>(trace: Seq<RequestRecord<T>>)
    requires
        trace.len() > 0,
        record_wf(trace[0]),
        is_record_trace(trace),
    ensures
        wins(trace) <= 1,
        record_wf(trace.last()),
        wins(trace) == 1 ==> has_result(trace.last()),
    decreases trace.len(),
{
    if trace.len() >= 2 {
        let before = trace.drop_last();
        assert forall|i: int| 0 <= i < before.len() - 1 implies record_step(
            #[trigger] before[i],
            before[i + 1],
        ) by {
            assert(record_step(trace[i], trace[i + 1]));
        }
        lemma_at_most_one_winner(before);
        let a = trace[trace.len() - 2];
        let b = trace.last();
        assert(before.last() == a);
        assert(record_step(a, trace[trace.len() - 2 + 1]));
        lemma_step_keeps_record_wf(a, b);
        if has_result(a) {
            lemma_result_is_final(a, b);
        }
    }
}

} // verus!
