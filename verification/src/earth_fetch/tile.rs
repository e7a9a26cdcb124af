//! The tiles of a planet's quadtree and what holds of them in every tree.

use crate::geo_trig::{lemma_child_wf, MAX_ZOOM, root_tile, TileCoord};
use vstd::arithmetic::power2::*;
use vstd::prelude::*;

verus! {

/// Index of a tile in its planet's arena. An id is never given out twice.
pub type NodeId = usize;

/// Record of a tile that waits for a download: how often it failed so far
/// and the time, in milliseconds, before which it is not tried again.
#[derive(Clone, Copy, Debug, PartialEq, Eq, Structural)]
pub struct DownloadPending {
    pub fail_cnt: u8,
    pub try_after: u64,
}

/// Record of a tile whose download is in flight: the handle by which the
/// task is aborted, and the pending record it was started from.
#[derive(Clone, Copy, Debug, PartialEq, Eq, Structural)]
pub struct DownloadStarted {
    pub abort_handle: u64,
    pub pending_info: DownloadPending,
}

/// Mark of a tile whose image has arrived.
#[derive(Clone, Copy, Debug, PartialEq, Eq, Structural)]
pub struct DownloadFinished;

/// Where a tile stands with its image.
#[derive(Clone, Copy, Debug, PartialEq, Eq, Structural)]
pub enum DownloadState {
    Pending(DownloadPending),
    Started(DownloadStarted),
    Finished(DownloadFinished),
}

/// Whether a tile is drawn, or stands back for its four children.
#[derive(Clone, Copy, Debug, PartialEq, Eq, Structural)]
pub enum Visibility {
    Visible,
    Replaced,
}

/// Mark of a leaf that takes part in the split and merge decisions: the
/// time, in milliseconds, from which it is looked at again.
#[derive(Clone, Copy, Debug, PartialEq, Eq, Structural)]
pub struct WebMercatorLeaf {
    pub check_after: u64,
}

/// Mark of a freshly split tile that waits for its children's images: the
/// time, in milliseconds, of the next look.
#[derive(Clone, Copy, Debug, PartialEq, Eq, Structural)]
pub struct CheckPostSplit {
    pub next_check_at: u64,
}

/// Where a tile stands in the life of the tree.
#[derive(Clone, Copy, Debug, PartialEq, Eq, Structural)]
pub enum TileStage {
    /// Asked for, not yet given its geometry.
    SpawnRequested,
    /// A leaf that the decision loop looks at.
    Leaf(WebMercatorLeaf),
    /// A leaf chosen to be split.
    SplitRequested,
    /// A tile with four children; `Some` while the children's images are
    /// still awaited.
    Interior(Option<CheckPostSplit>),
    /// A tile with four children chosen to become a leaf again.
    MergeRequested,
    /// A leaf whose parent is about to be merged.
    Retiring,
}

/// A vertex of the quadtree.
#[derive(Clone, Copy, Debug, PartialEq, Eq)]
pub struct WebMercatorTile {
    pub coord: TileCoord,
    pub parent_tile: Option<NodeId>,
    pub parent_planet: u64,
    /// The four children in quadkey-digit order, or none for a leaf.
    pub children_tiles: Option<[NodeId; 4]>,
    /// Diagonal of the tile's patch on the sphere, in millimetres.
    pub cartesian_diagonal: u64,
    pub download: DownloadState,
    pub visibility: Visibility,
    pub stage: TileStage,
}

/// What the tree holds: one slot per id ever given out, empty once the tile
/// is gone.
pub type Arena = Seq<Option<WebMercatorTile>>;

/// Slot `i` exists and holds a tile.
pub open spec fn live(s: Arena, i: int) -> bool {
    0 <= i < s.len() && s[i] is Some
}

/// A stage in which a tile has no children.
pub open spec fn stage_childless(st: TileStage) -> bool {
    st is SpawnRequested || st is Leaf || st is SplitRequested || st is Retiring
}

/// Tile `i` stands in the children list of tile `p`.
pub open spec fn is_child_of(s: Arena, p: int, i: int) -> bool {
    s[p]->0.children_tiles matches Some(ch) && (ch[0] == i || ch[1] == i || ch[2] == i || ch[3]
        == i)
}

/// Slot `c` holds the `k`-th child of tile `p`: it is live, points back at
/// `p`, and has the coordinate of that child.
pub open spec fn child_ok(s: Arena, p: int, c: NodeId, k: int) -> bool {
    &&& live(s, c as int)
    &&& s[c as int]->0.parent_tile == Some(p as usize)
    &&& s[c as int]->0.coord == s[p]->0.coord.child(k)
    &&& (s[p]->0.stage is MergeRequested ==> s[c as int]->0.stage is Retiring)
}

/// What holds of slot `i` in a well-formed tree.
pub open spec fn node_wf(s: Arena, root_z: u8, planet: u64, next_task: u64, i: int) -> bool {
    s[i] matches Some(n) ==> {
        &&& n.coord.wf()
        &&& n.parent_planet == planet
        &&& match n.parent_tile {
            None => n.coord.z == root_z && !(n.stage is Retiring) && i < pow2(root_z as nat) * pow2(
                root_z as nat,
            ),
            Some(p) => live(s, p as int) && is_child_of(s, p as int, i) && (n.stage is Retiring
                ==> s[p as int]->0.stage is MergeRequested),
        }
        &&& match n.children_tiles {
            None => stage_childless(n.stage) && n.visibility is Visible,
            Some(ch) => !stage_childless(n.stage) && n.coord.z < MAX_ZOOM && child_ok(
                s,
                i,
                ch[0],
                0,
            ) && child_ok(s, i, ch[1], 1) && child_ok(s, i, ch[2], 2) && child_ok(s, i, ch[3], 3),
        }
        &&& (n.download matches DownloadState::Started(st) ==> st.abort_handle < next_task)
        &&& (n.stage is SplitRequested ==> n.coord.z < MAX_ZOOM)
    }
}

/// Quadtree closure and the rest of the tree's invariant, of every slot.
pub open spec fn arena_wf(s: Arena, root_z: u8, planet: u64, next_task: u64) -> bool {
    forall|i: int| 0 <= i < s.len() ==> #[trigger] node_wf(s, root_z, planet, next_task, i)
}

/// Two states of one slot that differ in nothing the shape of the tree
/// depends on.
pub open spec fn same_shape(a: Option<WebMercatorTile>, b: Option<WebMercatorTile>) -> bool {
    match (a, b) {
        (None, None) => true,
        (Some(n), Some(m)) => {
            &&& m.coord == n.coord
            &&& m.parent_tile == n.parent_tile
            &&& m.parent_planet == n.parent_planet
            &&& m.children_tiles == n.children_tiles
            &&& (m.stage is Retiring <==> n.stage is Retiring)
            &&& (m.stage is MergeRequested <==> n.stage is MergeRequested)
            &&& (stage_childless(m.stage) <==> stage_childless(n.stage))
            &&& (m.children_tiles is None ==> m.visibility is Visible)
            &&& (m.stage is SplitRequested ==> m.coord.z < MAX_ZOOM)
        },
        _ => false,
    }
}

/// A well-formed tree stays well formed when its tiles change in nothing
/// the shape depends on and every handle in flight is below `next_task2`.
pub proof fn lemma_same_shape_wf(
    s: Arena,
    t: Arena,
    root_z: u8,
    planet: u64,
    next_task: u64,
    next_task2: u64,
)
    requires
        arena_wf(s, root_z, planet, next_task),
        s.len() == t.len(),
        forall|i: int| 0 <= i < s.len() ==> same_shape(#[trigger] s[i], t[i]),
        forall|i: int|
            0 <= i < t.len() ==> ((#[trigger] t[i]) matches Some(m) ==> (m.download matches DownloadState::Started(
                st,
            ) ==> st.abort_handle < next_task2)),
    ensures
        arena_wf(t, root_z, planet, next_task2),
{
    assert forall|i: int| 0 <= i < t.len() implies #[trigger] node_wf(
        t,
        root_z,
        planet,
        next_task2,
        i,
    ) by {
        assert(node_wf(s, root_z, planet, next_task, i));
        assert(same_shape(s[i], t[i]));
        if t[i] is Some {
            let n = s[i]->0;
            match n.parent_tile {
                None => {},
                Some(p) => {
                    assert(same_shape(s[p as int], t[p as int]));
                },
            }
            match n.children_tiles {
                None => {},
                Some(ch) => {
                    assert(same_shape(s[ch[0] as int], t[ch[0] as int]));
                    assert(same_shape(s[ch[1] as int], t[ch[1] as int]));
                    assert(same_shape(s[ch[2] as int], t[ch[2] as int]));
                    assert(same_shape(s[ch[3] as int], t[ch[3] as int]));
                },
            }
        }
    }
}


/// A planet whose surface is drawn from Web-Mercator tiles.
#[derive(Debug)]
pub struct WebMercatorTiledPlanet {
    pub planet_name: String,
    pub root_zoom_level: u8,
    /// Name of the tile server whose imagery the planet shows.
    pub tile_type: String,
    /// Radius of the sphere, in millimetres.
    pub planet_radius: u64,
}

/// Request to give a tile its geometry: the tile's id, its coordinate, and
/// whether it is one of the planet's root tiles.
#[derive(Clone, Copy, Debug, PartialEq, Eq)]
pub struct SpawnTilePls {
    pub target: NodeId,
    pub coord: TileCoord,
    pub is_root: bool,
}

/// What the frame systems look for among the tiles.
#[derive(Clone, Copy, Debug, PartialEq, Eq, Structural)]
pub enum TileFilter {
    /// Asked for, waiting for geometry.
    SpawnRequested,
    /// Chosen to be split.
    SplitRequested,
    /// Chosen to be merged.
    MergeRequested,
    /// A leaf whose next look is due.
    LeafDue,
    /// A split tile whose next look at its children is due.
    PostSplitDue,
    /// A tile with geometry that waits for a download whose time has come.
    DownloadDue,
    /// A tile with geometry whose download is in flight.
    DownloadRunning,
    /// A tile with geometry that has its image.
    DownloadFinished,
}

/// The tile a root request starts as.
pub open spec fn root_request(coord: TileCoord, planet: u64) -> WebMercatorTile {
    WebMercatorTile {
        coord,
        parent_tile: None,
        parent_planet: planet,
        children_tiles: None,
        cartesian_diagonal: 0,
        download: DownloadState::Pending(DownloadPending { fail_cnt: 0, try_after: 0 }),
        visibility: Visibility::Visible,
        stage: TileStage::SpawnRequested,
    }
}

/// Whether tile `t` is what `filter` looks for at time `now`.
pub open spec fn filter_matches(filter: TileFilter, t: WebMercatorTile, now: u64) -> bool {
    match filter {
        TileFilter::SpawnRequested => t.stage is SpawnRequested,
        TileFilter::SplitRequested => t.stage is SplitRequested,
        TileFilter::MergeRequested => t.stage is MergeRequested,
        TileFilter::LeafDue => t.stage matches TileStage::Leaf(leaf) && leaf.check_after <= now,
        TileFilter::PostSplitDue => t.stage matches TileStage::Interior(Some(check))
            && check.next_check_at <= now,
        TileFilter::DownloadDue => !(t.stage is SpawnRequested) && (
        t.download matches DownloadState::Pending(p) && p.try_after < now),
        TileFilter::DownloadRunning => !(t.stage is SpawnRequested) && t.download is Started,
        TileFilter::DownloadFinished => !(t.stage is SpawnRequested) && t.download is Finished,
    }
}

/// Number of tiles in the slots below `upto` that `filter` looks for.
pub open spec fn count_matching(s: Arena, filter: TileFilter, now: u64, upto: int) -> nat
    decreases upto,
{
    if upto <= 0 {
        0
    } else {
        count_matching(s, filter, now, upto - 1) + if live(s, upto - 1) && filter_matches(
            filter,
            s[upto - 1]->0,
            now,
        ) {
            1nat
        } else {
            0nat
        }
    }
}

/// The count grows with the range.
pub proof fn lemma_count_matching_monotonic(s: Arena, filter: TileFilter, now: u64, a: int, b: int)
    requires
        a <= b,
    ensures
        count_matching(s, filter, now, a) <= count_matching(s, filter, now, b),
    decreases b - a,
{
    if a < b {
        lemma_count_matching_monotonic(s, filter, now, a, b - 1);
    }
}

/// `picked` lists, in rising order, the first `limit` tiles of `s` that
/// `filter` looks for (all of them where there are fewer).
pub open spec fn is_selection(
    s: Arena,
    filter: TileFilter,
    now: u64,
    limit: usize,
    picked: Seq<NodeId>,
) -> bool {
    &&& picked.len() <= limit
    &&& forall|k: int|
        0 <= k < picked.len() ==> live(s, #[trigger] picked[k] as int) && filter_matches(
            filter,
            s[picked[k] as int]->0,
            now,
        )
    &&& forall|j: int, k: int| 0 <= j < k < picked.len() ==> picked[j] < picked[k]
    &&& forall|i: int|
        #![trigger s[i]]
        live(s, i) && filter_matches(filter, s[i]->0, now) && (picked.len() < limit || (
        picked.len() > 0 && i <= picked.last())) ==> picked.contains(i as usize)
}




/// Once the root tiles are requested they stay: a tree with tiles holds
/// every tile of the root level, column by column, in its first slots, and
/// none of them has a parent.
pub open spec fn roots_present(s: Arena, root_z: u8) -> bool {
    s.len() == 0 || (s.len() >= pow2(root_z as nat) * pow2(root_z as nat) && forall|k: int|
        0 <= k < pow2(root_z as nat) * pow2(root_z as nat) ==> live(s, k) && (#[trigger] s[k])->0.coord
            == root_tile(root_z, k) && s[k]->0.parent_tile is None)
}

/// The root tiles stay where the tiles change in nothing the shape of the
/// tree depends on.
pub proof fn lemma_same_shape_roots(s: Arena, t: Arena, root_z: u8)
    requires
        roots_present(s, root_z),
        s.len() == t.len(),
        forall|i: int| 0 <= i < s.len() ==> same_shape(#[trigger] s[i], t[i]),
    ensures
        roots_present(t, root_z),
{
    if s.len() > 0 {
        assert forall|k: int| 0 <= k < pow2(root_z as nat) * pow2(root_z as nat) implies live(t, k)
            && (#[trigger] t[k])->0.coord == root_tile(root_z, k) && t[k]->0.parent_tile is None by {
            assert(same_shape(s[k], t[k]));
        }
    }
}

/// The root tiles stay where the tree only grows and the tiles that were
/// there keep their coordinate and their parent.
pub proof fn lemma_kept_roots(s: Arena, t: Arena, root_z: u8)
    requires
        roots_present(s, root_z),
        s.len() > 0,
        s.len() <= t.len(),
        forall|i: int|
            0 <= i < s.len() && (#[trigger] s[i]) is Some && s[i]->0.parent_tile is None ==> t[i]
                is Some && t[i]->0.coord == s[i]->0.coord && t[i]->0.parent_tile is None,
    ensures
        roots_present(t, root_z),
{
    assert forall|k: int| 0 <= k < pow2(root_z as nat) * pow2(root_z as nat) implies live(t, k) && (
    #[trigger] t[k])->0.coord == root_tile(root_z, k) && t[k]->0.parent_tile is None by {
        assert(live(s, k) && s[k]->0.parent_tile is None);
    }
}

/// The four children of a tile are four different tiles, none of them the
/// tile itself, one level below it.
pub proof fn lemma_children_distinct(s: Arena, root_z: u8, planet: u64, next_task: u64, p: int)
    requires
        arena_wf(s, root_z, planet, next_task),
        live(s, p),
        s[p]->0.children_tiles is Some,
    ensures
        ({
            let ch = s[p]->0.children_tiles->0;
            &&& ch[0] != ch[1] && ch[0] != ch[2] && ch[0] != ch[3] && ch[1] != ch[2] && ch[1]
                != ch[3] && ch[2] != ch[3]
            &&& ch[0] != p && ch[1] != p && ch[2] != p && ch[3] != p
            &&& child_ok(s, p, ch[0], 0) && child_ok(s, p, ch[1], 1) && child_ok(s, p, ch[2], 2)
                && child_ok(s, p, ch[3], 3)
        }),
{
    assert(node_wf(s, root_z, planet, next_task, p));
    let t = s[p]->0;
    lemma_child_wf(t.coord, 0);
    lemma_child_wf(t.coord, 1);
    lemma_child_wf(t.coord, 2);
    lemma_child_wf(t.coord, 3);
}

/// A tile without children is nobody's parent.
pub proof fn lemma_childless_is_no_parent(
    s: Arena,
    root_z: u8,
    planet: u64,
    next_task: u64,
    p: NodeId,
    i: int,
)
    requires
        arena_wf(s, root_z, planet, next_task),
        live(s, p as int),
        s[p as int]->0.children_tiles is None,
        live(s, i),
    ensures
        s[i]->0.parent_tile != Some(p),
{
    assert(node_wf(s, root_z, planet, next_task, i));
}

} // verus!
