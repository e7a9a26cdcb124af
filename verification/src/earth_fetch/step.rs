//! The changes of a planet's quadtree, one step at a time: what each step
//! does to the tree, and what a sequence of steps makes of it.

use crate::earth_fetch::tile::{
    Arena, arena_wf, CheckPostSplit, DownloadFinished, DownloadPending, DownloadStarted,
    DownloadState, filter_matches, live, node_wf, NodeId, root_request, TileFilter, TileStage,
    Visibility, WebMercatorLeaf, WebMercatorTile, WebMercatorTiledPlanet,
};
use crate::geo_trig::{TileCoord, MAX_ZOOM};
use crate::text::{decimal, push_decimal};
use vstd::arithmetic::power2::*;
use vstd::prelude::*;
use vstd::string::*;

verus! {

/// Coverage above which a leaf is split, in millionths: 0.3.
pub const SPLIT_THRESHOLD: i64 = 300_000;

/// Time between two looks at a leaf, in milliseconds, before jitter.
pub const CHECK_INTERVAL_MS: u64 = 1000;

/// Bound of the jitter added to `CHECK_INTERVAL_MS`, in milliseconds.
pub const CHECK_JITTER_MS: u64 = 100;

/// Time between two looks at the children of a split tile, in
/// milliseconds, before jitter; the jitter has the same bound.
pub const POST_SPLIT_INTERVAL_MS: u64 = 100;

/// Fixed part of the delay after a failed download, in milliseconds.
pub const RETRY_BASE_MS: u64 = 100;

/// Bound of the jitter added after a failed download, in milliseconds.
pub const RETRY_JITTER_MS: u64 = 1000;

/// `a + b`, or the largest time where that does not fit.
pub open spec fn sat_add(a: u64, b: u64) -> u64 {
    if a + b > u64::MAX {
        u64::MAX
    } else {
        (a + b) as u64
    }
}

/// Exponential part of the delay after the `fail_cnt`-th failure in a row:
/// `2^fail_cnt` seconds, or the largest time where that does not fit.
pub open spec fn backoff_ms(fail_cnt: u8) -> u64 {
    if pow2(fail_cnt as nat) * 1000 > u64::MAX {
        u64::MAX
    } else {
        (pow2(fail_cnt as nat) * 1000) as u64
    }
}

/// The pending record of a tile that never failed.
pub open spec fn fresh_pending() -> DownloadPending {
    DownloadPending { fail_cnt: 0, try_after: 0 }
}

/// The pending record after a failure at time `now` of a download that was
/// started from a record with `fail_cnt` failures.
pub open spec fn pending_after_failure(fail_cnt: u8, now: u64, jitter: u64) -> DownloadPending {
    DownloadPending {
        fail_cnt: if fail_cnt < u8::MAX {
            (fail_cnt + 1) as u8
        } else {
            u8::MAX
        },
        try_after: sat_add(sat_add(sat_add(now, RETRY_BASE_MS), jitter), backoff_ms(fail_cnt)),
    }
}

/// Split iff the coverage is above the threshold and the tile is above the
/// server's deepest level (and above the deepest level there is).
pub open spec fn should_split(z: u8, max_level: u8, effective: i64) -> bool {
    effective > SPLIT_THRESHOLD && z < max_level && z < MAX_ZOOM
}

/// Merge iff the tile has a parent and lies below the server's deepest
/// level or its coverage is under a quarter of the threshold.
pub open spec fn should_merge(has_parent: bool, z: u8, max_level: u8, effective: i64) -> bool {
    has_parent && (z > max_level || effective < SPLIT_THRESHOLD / 4)
}

/// One change of the tree. Every system of the engine is a sequence of
/// these.
#[derive(Clone, Copy, Debug, PartialEq, Eq)]
pub enum TreeStep {
    /// A requested tile gets its geometry and becomes a leaf that waits for
    /// its image.
    Spawn { target: NodeId, cartesian_diagonal: u64 },
    /// A due leaf is looked at: it is marked for a split, left alone because
    /// it wants a merge, or put off to `now` plus the interval and `jitter`.
    Decide { leaf: NodeId, now: u64, max_level: u8, effective: i64, jitter: u64 },
    /// A tile is marked for a merge, if all four children are leaves and the
    /// tile itself does not want to be split.
    RequestMerge { parent: NodeId, max_level: u8, effective: i64 },
    /// A tile marked for a split gets four requested children.
    Split { tile: NodeId },
    /// A tile marked for a merge loses its children and is a leaf again.
    Merge { tile: NodeId },
    /// A split tile looks at its children: once all four have their image
    /// it stands back for them, else it looks again after the interval and
    /// `jitter`.
    PostSplit { tile: NodeId, now: u64, jitter: u64 },
    /// The download of a waiting tile starts under `handle`.
    Start { tile: NodeId, handle: u64 },
    /// A download that was started after `fail_cnt` failures failed.
    Failed { tile: NodeId, fail_cnt: u8, now: u64, jitter: u64 },
    /// A tile's image has arrived.
    Finished { tile: NodeId },
    /// A download result is dropped: its tile is gone, or the result is not
    /// what the planet shows now. Nothing changes.
    Discard { tile: NodeId },
}

/// The tile with another stage.
pub open spec fn with_stage(t: WebMercatorTile, stage: TileStage) -> WebMercatorTile {
    WebMercatorTile { stage, ..t }
}

/// The tile with another download state.
pub open spec fn with_download(t: WebMercatorTile, download: DownloadState) -> WebMercatorTile {
    WebMercatorTile { download, ..t }
}

/// The tile a child request starts as.
pub open spec fn child_request(parent: NodeId, coord: TileCoord, planet: u64) -> WebMercatorTile {
    WebMercatorTile { parent_tile: Some(parent), ..root_request(coord, planet) }
}

/// A tile that has its geometry and its image.
pub open spec fn is_downloaded(s: Arena, c: NodeId) -> bool {
    live(s, c as int) && !(s[c as int]->0.stage is SpawnRequested)
        && s[c as int]->0.download is Finished
}

/// A tile that is a leaf the decision loop looks at.
pub open spec fn is_leaf(s: Arena, c: NodeId) -> bool {
    live(s, c as int) && s[c as int]->0.stage is Leaf
}

/// Whether step `Decide` finds a due leaf at `leaf`.
pub open spec fn decide_applies(s: Arena, leaf: NodeId, now: u64) -> bool {
    live(s, leaf as int) && filter_matches(TileFilter::LeafDue, s[leaf as int]->0, now)
}

/// Whether step `RequestMerge` marks `parent`.
pub open spec fn merge_request_applies(
    s: Arena,
    parent: NodeId,
    max_level: u8,
    effective: i64,
) -> bool {
    &&& live(s, parent as int)
    &&& s[parent as int]->0.stage is Interior
    &&& s[parent as int]->0.children_tiles matches Some(ch) && is_leaf(s, ch[0]) && is_leaf(
        s,
        ch[1],
    ) && is_leaf(s, ch[2]) && is_leaf(s, ch[3])
    &&& !should_split(s[parent as int]->0.coord.z, max_level, effective)
}

/// Whether step `Split` splits `tile`.
pub open spec fn split_applies(s: Arena, tile: NodeId) -> bool {
    live(s, tile as int) && s[tile as int]->0.stage is SplitRequested && s.len() + 4 <= usize::MAX
}

/// Whether step `Merge` merges `tile`.
pub open spec fn merge_applies(s: Arena, tile: NodeId) -> bool {
    live(s, tile as int) && s[tile as int]->0.stage is MergeRequested
        && s[tile as int]->0.children_tiles is Some
}

/// Whether step `PostSplit` looks at the children of `tile`.
pub open spec fn post_split_applies(s: Arena, tile: NodeId, now: u64) -> bool {
    live(s, tile as int) && filter_matches(TileFilter::PostSplitDue, s[tile as int]->0, now)
        && s[tile as int]->0.children_tiles is Some
}

/// A live tile that has its geometry.
pub open spec fn is_spawned(s: Arena, tile: NodeId) -> bool {
    live(s, tile as int) && !(s[tile as int]->0.stage is SpawnRequested)
}


/// The handle of the download in flight for tile `c`, if there is one.
pub open spec fn started_handle(s: Arena, c: NodeId) -> Seq<u64> {
    if live(s, c as int) && s[c as int]->0.download is Started {
        seq![s[c as int]->0.download->Started_0.abort_handle]
    } else {
        Seq::empty()
    }
}

/// The handles of the downloads that step `Merge` of `tile` leaves without
/// a tile: those in flight for its four children, in order.
pub open spec fn merge_aborts(s: Arena, tile: NodeId) -> Seq<u64> {
    if merge_applies(s, tile) {
        let ch = s[tile as int]->0.children_tiles->0;
        started_handle(s, ch[0]) + started_handle(s, ch[1]) + started_handle(s, ch[2])
            + started_handle(s, ch[3])
    } else {
        Seq::empty()
    }
}

/// The parent that a leaf asks to merge when step `Decide` looks at it.
pub open spec fn merge_wish(s: Arena, leaf: NodeId, now: u64, max_level: u8, effective: i64) -> Option<
    NodeId,
> {
    if decide_applies(s, leaf, now) && !should_split(
        s[leaf as int]->0.coord.z,
        max_level,
        effective,
    ) && should_merge(
        s[leaf as int]->0.parent_tile is Some,
        s[leaf as int]->0.coord.z,
        max_level,
        effective,
    ) {
        s[leaf as int]->0.parent_tile
    } else {
        None
    }
}

/// The tree after one step.
pub open spec fn step_spec(s: Arena, step: TreeStep) -> Arena {
    match step {
        TreeStep::Spawn { target, cartesian_diagonal } => {
            if live(s, target as int) && s[target as int]->0.stage is SpawnRequested {
                s.update(
                    target as int,
                    Some(
                        WebMercatorTile {
                            cartesian_diagonal,
                            download: DownloadState::Pending(fresh_pending()),
                            stage: TileStage::Leaf(WebMercatorLeaf { check_after: 0 }),
                            ..s[target as int]->0
                        },
                    ),
                )
            } else {
                s
            }
        },
        TreeStep::Decide { leaf, now, max_level, effective, jitter } => {
            if decide_applies(s, leaf, now) {
                let t = s[leaf as int]->0;
                if should_split(t.coord.z, max_level, effective) {
                    s.update(leaf as int, Some(with_stage(t, TileStage::SplitRequested)))
                } else if should_merge(t.parent_tile is Some, t.coord.z, max_level, effective) {
                    s
                } else {
                    s.update(
                        leaf as int,
                        Some(
                            with_stage(
                                t,
                                TileStage::Leaf(
                                    WebMercatorLeaf {
                                        check_after: sat_add(
                                            sat_add(now, CHECK_INTERVAL_MS),
                                            jitter,
                                        ),
                                    },
                                ),
                            ),
                        ),
                    )
                }
            } else {
                s
            }
        },
        TreeStep::RequestMerge { parent, max_level, effective } => {
            if merge_request_applies(s, parent, max_level, effective) {
                let t = s[parent as int]->0;
                let ch = t.children_tiles->0;
                s.update(
                    ch[0] as int,
                    Some(with_stage(s[ch[0] as int]->0, TileStage::Retiring)),
                ).update(
                    ch[1] as int,
                    Some(with_stage(s[ch[1] as int]->0, TileStage::Retiring)),
                ).update(
                    ch[2] as int,
                    Some(with_stage(s[ch[2] as int]->0, TileStage::Retiring)),
                ).update(
                    ch[3] as int,
                    Some(with_stage(s[ch[3] as int]->0, TileStage::Retiring)),
                ).update(parent as int, Some(with_stage(t, TileStage::MergeRequested)))
            } else {
                s
            }
        },
        TreeStep::Split { tile } => {
            if split_applies(s, tile) {
                let t = s[tile as int]->0;
                let base = s.len() as usize;
                s.update(
                    tile as int,
                    Some(
                        WebMercatorTile {
                            children_tiles: Some(
                                [base, (base + 1) as usize, (base + 2) as usize, (base + 3) as usize],
                            ),
                            stage: TileStage::Interior(Some(CheckPostSplit { next_check_at: 0 })),
                            ..t
                        },
                    ),
                ).push(Some(child_request(tile, t.coord.child(0), t.parent_planet))).push(
                    Some(child_request(tile, t.coord.child(1), t.parent_planet)),
                ).push(Some(child_request(tile, t.coord.child(2), t.parent_planet))).push(
                    Some(child_request(tile, t.coord.child(3), t.parent_planet)),
                )
            } else {
                s
            }
        },
        TreeStep::Merge { tile } => {
            if merge_applies(s, tile) {
                let t = s[tile as int]->0;
                let ch = t.children_tiles->0;
                s.update(ch[0] as int, None).update(ch[1] as int, None).update(
                    ch[2] as int,
                    None,
                ).update(ch[3] as int, None).update(
                    tile as int,
                    Some(
                        WebMercatorTile {
                            children_tiles: None,
                            stage: TileStage::Leaf(WebMercatorLeaf { check_after: 0 }),
                            visibility: Visibility::Visible,
                            ..t
                        },
                    ),
                )
            } else {
                s
            }
        },
        TreeStep::PostSplit { tile, now, jitter } => {
            if post_split_applies(s, tile, now) {
                let t = s[tile as int]->0;
                let ch = t.children_tiles->0;
                if is_downloaded(s, ch[0]) && is_downloaded(s, ch[1]) && is_downloaded(s, ch[2])
                    && is_downloaded(s, ch[3]) {
                    s.update(
                        tile as int,
                        Some(
                            WebMercatorTile {
                                visibility: Visibility::Replaced,
                                stage: TileStage::Interior(None),
                                ..t
                            },
                        ),
                    )
                } else {
                    s.update(
                        tile as int,
                        Some(
                            with_stage(
                                t,
                                TileStage::Interior(
                                    Some(
                                        CheckPostSplit {
                                            next_check_at: sat_add(
                                                sat_add(now, POST_SPLIT_INTERVAL_MS),
                                                jitter,
                                            ),
                                        },
                                    ),
                                ),
                            ),
                        ),
                    )
                }
            } else {
                s
            }
        },
        TreeStep::Start { tile, handle } => {
            if is_spawned(s, tile) && s[tile as int]->0.download is Pending {
                let t = s[tile as int]->0;
                s.update(
                    tile as int,
                    Some(
                        with_download(
                            t,
                            DownloadState::Started(
                                DownloadStarted {
                                    abort_handle: handle,
                                    pending_info: t.download->Pending_0,
                                },
                            ),
                        ),
                    ),
                )
            } else {
                s
            }
        },
        TreeStep::Failed { tile, fail_cnt, now, jitter } => {
            if is_spawned(s, tile) {
                s.update(
                    tile as int,
                    Some(
                        with_download(
                            s[tile as int]->0,
                            DownloadState::Pending(pending_after_failure(fail_cnt, now, jitter)),
                        ),
                    ),
                )
            } else {
                s
            }
        },
        TreeStep::Finished { tile } => {
            if is_spawned(s, tile) {
                s.update(
                    tile as int,
                    Some(
                        with_download(
                            s[tile as int]->0,
                            DownloadState::Finished(DownloadFinished),
                        ),
                    ),
                )
            } else {
                s
            }
        },
        TreeStep::Discard { tile } => s,
    }
}

/// The tree after a sequence of steps, first to last.
pub open spec fn run(s: Arena, steps: Seq<TreeStep>) -> Arena
    decreases steps.len(),
{
    if steps.len() == 0 {
        s
    } else {
        step_spec(run(s, steps.drop_last()), steps.last())
    }
}


/// Most leaves looked at in one frame.
pub const MAX_DECISIONS_PER_FRAME: usize = 128;

/// Most tiles split in one frame, and most tiles merged.
pub const MAX_RESHAPES_PER_FRAME: usize = 64;

/// Most split tiles whose children are looked at in one frame.
pub const MAX_POST_SPLIT_CHECKS_PER_FRAME: usize = 128;

/// Most requested tiles given their geometry in one frame.
pub const MAX_SPAWNS_PER_FRAME: usize = 128;

/// Most downloads started in one frame.
pub const MAX_DISPATCH_PER_FRAME: usize = 16;

/// Most downloads in flight at any time.
pub const MAX_RUNNING_DOWNLOADS: usize = 221;

/// Most download results taken in one frame.
pub const MAX_INSERTS_PER_FRAME: usize = 64;

/// What the camera says of one leaf: the coverage of the leaf and of its
/// parent, in millionths (the parent's is not looked at for a root tile).
#[derive(Clone, Copy, Debug, PartialEq, Eq)]
pub struct LeafObservation {
    pub leaf: NodeId,
    pub effective: i64,
    pub parent_effective: i64,
}

/// What one run of the decision loop did: the looks at the leaves, in
/// order, and then the merge requests that came of them, in order.
#[derive(Debug)]
pub struct DecisionLog {
    pub decided: Vec<TreeStep>,
    pub merges: Vec<TreeStep>,
}

/// What one run of the merges did: the tiles it took up, in order, and the
/// handles of the downloads that lost their tile.
#[derive(Debug)]
pub struct MergeLog {
    pub merged: Vec<NodeId>,
    pub aborted: Vec<u64>,
}

/// A download handed to the network: the tile it is for, the handle under
/// which the tree knows the task, and the pending record it starts from.
#[derive(Clone, Copy, Debug, PartialEq, Eq)]
pub struct TileDownload {
    pub target: NodeId,
    pub tile: TileCoord,
    pub abort_handle: u64,
    pub pending_info: DownloadPending,
}

/// What a download task reports back: the image it got, if any (as the
/// handle under which the renderer keeps it), the tile it was for, and the
/// planet, tile server and pending record it was started with.
#[derive(Debug)]
pub struct TileFetchResultData {
    pub image: Option<u64>,
    pub target: NodeId,
    pub tile: TileCoord,
    pub planet_name: String,
    pub tile_type: String,
    pub pending_info: DownloadPending,
}

/// What a change of the planet's tile server did: how many tiles went back
/// to waiting, and the handles of the downloads to abort.
#[derive(Debug)]
pub struct PlanetReset {
    pub reset: usize,
    pub aborted: Vec<u64>,
}


/// The line that reports a change of the planet's tile server:
/// `reset=<tiles that went back to waiting>, aborted=<downloads aborted>`.
pub open spec fn reset_line(reset: nat, aborted: nat) -> Seq<char> {
    "reset="@ + decimal(reset) + ", aborted="@ + decimal(aborted)
}

impl PlanetReset {
    /// The line that reports the change.
    pub fn diagnostic_line(&self) -> (line: String)
        ensures
            line@ == reset_line(self.reset as nat, self.aborted@.len()),
    {
        let mut line = String::from_str("reset=");
        push_decimal(&mut line, self.reset as u64);
        line.append(", aborted=");
        push_decimal(&mut line, self.aborted.len() as u64);
        line
    }
}

/// A result is taken where its tile still stands, with geometry and with
/// the coordinate the result names, and the planet still goes by the name
/// and shows the tile server the download was started with.
pub open spec fn result_accepted(
    s: Arena,
    planet: WebMercatorTiledPlanet,
    msg: TileFetchResultData,
) -> bool {
    &&& is_spawned(s, msg.target)
    &&& s[msg.target as int]->0.coord == msg.tile
    &&& msg.planet_name@ == planet.planet_name@
    &&& msg.tile_type@ == planet.tile_type@
}

/// The step that a download result stands for.
pub open spec fn result_step(
    s: Arena,
    planet: WebMercatorTiledPlanet,
    msg: TileFetchResultData,
    now: u64,
    jitter: u64,
) -> TreeStep {
    if !result_accepted(s, planet, msg) {
        TreeStep::Discard { tile: msg.target }
    } else if msg.image is Some {
        TreeStep::Finished { tile: msg.target }
    } else {
        TreeStep::Failed { tile: msg.target, fail_cnt: msg.pending_info.fail_cnt, now, jitter }
    }
}

/// Step `step` is what the download result `msg` stands for at time `now`,
/// with some jitter under the bound.
pub open spec fn is_result_step(
    step: TreeStep,
    s: Arena,
    planet: WebMercatorTiledPlanet,
    msg: TileFetchResultData,
    now: u64,
) -> bool {
    if !result_accepted(s, planet, msg) {
        step == (TreeStep::Discard { tile: msg.target })
    } else if msg.image is Some {
        step == (TreeStep::Finished { tile: msg.target })
    } else {
        step matches TreeStep::Failed { tile, fail_cnt, now: at, jitter } && tile == msg.target
            && fail_cnt == msg.pending_info.fail_cnt && at == now && jitter < RETRY_JITTER_MS
    }
}

/// The merge requests that come of looking at the leaves `obs` by the
/// steps `decided`, one look per leaf: for each leaf that asked for a merge
/// when its turn came, a request for its parent.
pub open spec fn merge_requests(
    s: Arena,
    now: u64,
    max_level: u8,
    obs: Seq<LeafObservation>,
    decided: Seq<TreeStep>,
) -> Seq<TreeStep>
    decreases obs.len(),
{
    if obs.len() == 0 || decided.len() == 0 {
        Seq::empty()
    } else {
        let before = merge_requests(s, now, max_level, obs.drop_last(), decided.drop_last());
        match merge_wish(
            run(s, decided.drop_last()),
            obs.last().leaf,
            now,
            max_level,
            obs.last().effective,
        ) {
            Some(parent) => before.push(
                TreeStep::RequestMerge { parent, max_level, effective: obs.last().parent_effective },
            ),
            None => before,
        }
    }
}

/// The slot after the planet's tile server changed: a tile that has or
/// awaits an image waits from scratch.
pub open spec fn reset_slot(slot: Option<WebMercatorTile>) -> Option<WebMercatorTile> {
    match slot {
        Some(t) => if !(t.stage is SpawnRequested) && !(t.download is Pending) {
            Some(with_download(t, DownloadState::Pending(fresh_pending())))
        } else {
            slot
        },
        None => None,
    }
}

/// The handles of the downloads in flight for the tiles with geometry in
/// the slots below `upto`, by rising id.
pub open spec fn running_handles(s: Arena, upto: int) -> Seq<u64>
    decreases upto,
{
    if upto <= 0 {
        Seq::empty()
    } else {
        running_handles(s, upto - 1) + if live(s, upto - 1) && filter_matches(
            TileFilter::DownloadRunning,
            s[upto - 1]->0,
            0,
        ) {
            seq![s[upto - 1]->0.download->Started_0.abort_handle]
        } else {
            Seq::empty()
        }
    }
}

/// Number of downloads that one frame starts: at most
/// `MAX_DISPATCH_PER_FRAME`, no more than keep the downloads in flight at
/// `MAX_RUNNING_DOWNLOADS`, no more than are due, and no more than there
/// are handles left.
pub open spec fn dispatch_count(running: nat, due: nat, next_task: u64) -> nat {
    let room: nat = if running < MAX_RUNNING_DOWNLOADS {
        (MAX_RUNNING_DOWNLOADS - running) as nat
    } else {
        0
    };
    let handles: nat = (u64::MAX - next_task) as nat;
    let a: nat = if room < MAX_DISPATCH_PER_FRAME {
        room
    } else {
        MAX_DISPATCH_PER_FRAME as nat
    };
    let b: nat = if due < a {
        due
    } else {
        a
    };
    if handles < b {
        handles
    } else {
        b
    }
}

/// One more step at the end of a run.
pub proof fn lemma_run_push(s: Arena, steps: Seq<TreeStep>, step: TreeStep)
    ensures
        run(s, steps.push(step)) == step_spec(run(s, steps), step),
{
    assert(steps.push(step).drop_last() =~= steps);
}

/// A well-formed tree stays well formed when more handles are given out.
pub proof fn lemma_wf_next_task(s: Arena, root_z: u8, planet: u64, next_task: u64, next_task2: u64)
    requires
        arena_wf(s, root_z, planet, next_task),
        next_task <= next_task2,
    ensures
        arena_wf(s, root_z, planet, next_task2),
{
    assert forall|i: int| 0 <= i < s.len() implies #[trigger] node_wf(
        s,
        root_z,
        planet,
        next_task2,
        i,
    ) by {
        assert(node_wf(s, root_z, planet, next_task, i));
    }
}


/// One `Split` step for each of `ids`, in order.
pub open spec fn split_steps(ids: Seq<NodeId>) -> Seq<TreeStep> {
    Seq::new(ids.len(), |k: int| TreeStep::Split { tile: ids[k] })
}

/// One `Merge` step for each of `ids`, in order.
pub open spec fn merge_steps(ids: Seq<NodeId>) -> Seq<TreeStep> {
    Seq::new(ids.len(), |k: int| TreeStep::Merge { tile: ids[k] })
}

/// The handles of the downloads that merging `ids`, in order, leaves
/// without a tile.
pub open spec fn merge_steps_aborts(s: Arena, ids: Seq<NodeId>) -> Seq<u64>
    decreases ids.len(),
{
    if ids.len() == 0 {
        Seq::empty()
    } else {
        merge_steps_aborts(s, ids.drop_last()) + merge_aborts(
            run(s, merge_steps(ids.drop_last())),
            ids.last(),
        )
    }
}

/// One `Start` step for each download of `started`, in order.
pub open spec fn start_steps(started: Seq<TileDownload>) -> Seq<TreeStep> {
    Seq::new(
        started.len(),
        |k: int| TreeStep::Start { tile: started[k].target, handle: started[k].abort_handle },
    )
}

/// The tiles that a sequence of `PostSplit` steps looks at.
pub open spec fn post_split_tiles(steps: Seq<TreeStep>) -> Seq<NodeId> {
    Seq::new(steps.len(), |k: int| steps[k]->PostSplit_tile)
}

/// What tells the merges, the results and the children's looks of one
/// frame apart from any others: the time and the bound of the jitter.
pub open spec fn is_post_split_look(step: TreeStep, now: u64) -> bool {
    step matches TreeStep::PostSplit { tile, now: at, jitter } && at == now && jitter
        < POST_SPLIT_INTERVAL_MS
}

/// Step `step` is the look at the leaf of `obs` at time `now`, with some
/// jitter under the bound.
pub open spec fn is_leaf_look(step: TreeStep, obs: LeafObservation, now: u64, max_level: u8) -> bool {
    step matches TreeStep::Decide { leaf, now: at, max_level: deepest, effective, jitter } && leaf
        == obs.leaf && at == now && deepest == max_level && effective == obs.effective && jitter
        < CHECK_JITTER_MS
}

} // verus!
