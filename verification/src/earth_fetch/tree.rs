//! The quadtree of one planet and the systems that run on it each frame.

use crate::earth_fetch::step::{
    backoff_ms, CHECK_INTERVAL_MS, CHECK_JITTER_MS, child_request, decide_applies, DecisionLog,
    dispatch_count, is_downloaded, is_leaf, is_leaf_look, is_post_split_look, is_result_step,
    is_spawned, LeafObservation, lemma_run_push, lemma_wf_next_task, MAX_DECISIONS_PER_FRAME,
    MAX_DISPATCH_PER_FRAME, MAX_INSERTS_PER_FRAME, MAX_POST_SPLIT_CHECKS_PER_FRAME,
    MAX_RESHAPES_PER_FRAME, MAX_RUNNING_DOWNLOADS, MAX_SPAWNS_PER_FRAME, merge_aborts,
    merge_applies, merge_request_applies, merge_requests, merge_steps, merge_steps_aborts,
    merge_wish, MergeLog, PlanetReset, post_split_applies, POST_SPLIT_INTERVAL_MS,
    post_split_tiles, reset_slot, result_step, RETRY_BASE_MS, RETRY_JITTER_MS, run,
    running_handles, should_merge, should_split, split_applies, split_steps, SPLIT_THRESHOLD,
    start_steps, started_handle, step_spec, TileDownload, TileFetchResultData, TreeStep,
    with_stage,
};
use crate::earth_fetch::tile::{
    Arena, arena_wf, CheckPostSplit, child_ok, count_matching, DownloadFinished, DownloadPending,
    DownloadStarted, DownloadState, filter_matches, is_selection, lemma_childless_is_no_parent,
    lemma_children_distinct, lemma_count_matching_monotonic, lemma_kept_roots,
    lemma_same_shape_roots, lemma_same_shape_wf, live, node_wf, NodeId, root_request,
    roots_present, same_shape, SpawnTilePls, TileFilter, TileStage, Visibility, WebMercatorLeaf,
    WebMercatorTile, WebMercatorTiledPlanet,
};
use crate::geo_trig::{lemma_child_wf, lemma_side_is_pow2, MAX_ZOOM, root_tile, TileCoord};
use crate::random::{random_below, sample_indices};
use vstd::arithmetic::power2::*;
use vstd::prelude::*;

verus! {

/// The quadtree of one planet.
pub struct PlanetTree {
    planet_id: u64,
    planet: WebMercatorTiledPlanet,
    nodes: Vec<Option<WebMercatorTile>>,
    next_task: u64,
}

impl View for PlanetTree {
    type V = Arena;

    closed spec fn view(&self) -> Arena {
        self.nodes@
    }
}

impl PlanetTree {
    /// The planet this tree belongs to.
    pub closed spec fn planet(&self) -> WebMercatorTiledPlanet {
        self.planet
    }

    /// The id under which the renderer knows the planet.
    pub closed spec fn planet_id(&self) -> u64 {
        self.planet_id
    }

    /// The handle that the next download task gets.
    pub closed spec fn next_task(&self) -> u64 {
        self.next_task
    }

    /// The invariant of the tree: every tile names a tile of the grid, root
    /// tiles sit at the planet's root level and are all there once they
    /// were requested, every tile with children has exactly four, each child
    /// points back at its parent and has the coordinate of that child, every
    /// tile without children is visible, and every download in flight has a
    /// handle that was given out.
    pub open spec fn wf(&self) -> bool {
        &&& self.planet().root_zoom_level < MAX_ZOOM
        &&& arena_wf(self@, self.planet().root_zoom_level, self.planet_id(), self.next_task())
        &&& roots_present(self@, self.planet().root_zoom_level)
    }

    /// A tree without tiles for `planet`. The root level must leave room for
    /// column and row numbers of 64 bits.
    pub fn new(planet_id: u64, planet: WebMercatorTiledPlanet) -> (tree: PlanetTree)
        requires
            planet.root_zoom_level < MAX_ZOOM,
        ensures
            tree.wf(),
            tree@.len() == 0,
            tree.planet() == planet,
            tree.planet_id() == planet_id,
            tree.next_task() == 0,
    {
        PlanetTree { planet_id, planet, nodes: Vec::new(), next_task: 0 }
    }

    /// Number of ids given out so far.
    pub fn len(&self) -> (n: usize)
        ensures
            n == self@.len(),
    {
        self.nodes.len()
    }

    /// The tile behind `id`, if it is still there.
    pub fn get(&self, id: NodeId) -> (t: Option<WebMercatorTile>)
        ensures
            live(self@, id as int) ==> t == self@[id as int],
            !live(self@, id as int) ==> t is None,
    {
        if id < self.nodes.len() {
            self.nodes[id]
        } else {
            None
        }
    }

    /// Name of the tile server whose imagery the planet shows.
    pub fn tile_type(&self) -> (name: &String)
        ensures
            name@ == self.planet().tile_type@,
    {
        &self.planet.tile_type
    }

    /// The planet's root zoom level.
    pub fn root_zoom_level(&self) -> (z: u8)
        ensures
            z == self.planet().root_zoom_level,
    {
        self.planet.root_zoom_level
    }

    /// Whether `t` is what `filter` looks for at time `now`.
    pub fn matches_filter(filter: TileFilter, t: &WebMercatorTile, now: u64) -> (yes: bool)
        ensures
            yes == filter_matches(filter, *t, now),
    {
        match filter {
            TileFilter::SpawnRequested => match t.stage {
                TileStage::SpawnRequested => true,
                _ => false,
            },
            TileFilter::SplitRequested => match t.stage {
                TileStage::SplitRequested => true,
                _ => false,
            },
            TileFilter::MergeRequested => match t.stage {
                TileStage::MergeRequested => true,
                _ => false,
            },
            TileFilter::LeafDue => match t.stage {
                TileStage::Leaf(leaf) => leaf.check_after <= now,
                _ => false,
            },
            TileFilter::PostSplitDue => match t.stage {
                TileStage::Interior(Some(check)) => check.next_check_at <= now,
                _ => false,
            },
            TileFilter::DownloadDue => match t.stage {
                TileStage::SpawnRequested => false,
                _ => match t.download {
                    DownloadState::Pending(p) => p.try_after < now,
                    _ => false,
                },
            },
            TileFilter::DownloadRunning => match t.stage {
                TileStage::SpawnRequested => false,
                _ => match t.download {
                    DownloadState::Started(_) => true,
                    _ => false,
                },
            },
            TileFilter::DownloadFinished => match t.stage {
                TileStage::SpawnRequested => false,
                _ => match t.download {
                    DownloadState::Finished(_) => true,
                    _ => false,
                },
            },
        }
    }

    /// The first `limit` tiles, by id, that `filter` looks for at time `now`.
    pub fn select(&self, filter: TileFilter, now: u64, limit: usize) -> (picked: Vec<NodeId>)
        ensures
            is_selection(self@, filter, now, limit, picked@),
            picked@.len() == if count_matching(self@, filter, now, self@.len() as int) < limit {
                count_matching(self@, filter, now, self@.len() as int)
            } else {
                limit as nat
            },
    {
        let mut picked: Vec<NodeId> = Vec::new();
        let n = self.nodes.len();
        let mut i: usize = 0;
        while i < n && picked.len() < limit
            invariant
                i <= n,
                n == self@.len(),
                picked@.len() <= limit,
                picked@.len() == count_matching(self@, filter, now, i as int),
                forall|k: int|
                    0 <= k < picked@.len() ==> live(self@, #[trigger] picked@[k] as int)
                        && filter_matches(filter, self@[picked@[k] as int]->0, now),
                forall|k: int| 0 <= k < picked@.len() ==> #[trigger] picked@[k] < i,
                forall|j: int, k: int| 0 <= j < k < picked@.len() ==> picked@[j] < picked@[k],
                forall|j: int|
                    #![trigger self@[j]]
                    0 <= j < i && live(self@, j) && filter_matches(filter, self@[j]->0, now)
                        ==> picked@.contains(j as usize),
            decreases n - i,
        {
            let slot = self.nodes[i];
            match slot {
                Some(t) => {
                    if Self::matches_filter(filter, &t, now) {
                        let ghost before = picked@;
                        picked.push(i);
                        proof {
                            assert(picked@[before.len() as int] == i);
                            assert forall|j: int|
                                #![trigger self@[j]]
                                0 <= j < i + 1 && live(self@, j) && filter_matches(
                                    filter,
                                    self@[j]->0,
                                    now,
                                ) implies picked@.contains(j as usize) by {
                                if j < i {
                                    assert(before.contains(j as usize));
                                    let k = choose|k: int|
                                        0 <= k < before.len() && before[k] == j as usize;
                                    assert(picked@[k] == j as usize);
                                }
                            }
                        }
                    }
                },
                None => {},
            }
            i += 1;
        }
        proof {
            assert forall|j: int|
                #![trigger self@[j]]
                live(self@, j) && filter_matches(filter, self@[j]->0, now) && (picked@.len()
                    < limit || (picked@.len() > 0 && j <= picked@.last())) implies picked@.contains(
                j as usize,
            ) by {
                if picked@.len() >= limit {
                    assert(picked@[picked@.len() - 1] < i);
                }
            }
            lemma_count_matching_monotonic(self@, filter, now, i as int, self@.len() as int);
        }
        picked
    }

    /// Puts `t` in the place of tile `id`, which it matches in shape.
    fn put(&mut self, id: NodeId, t: WebMercatorTile)
        requires
            old(self).wf(),
            live(old(self)@, id as int),
            same_shape(old(self)@[id as int], Some(t)),
            t.download matches DownloadState::Started(st) ==> st.abort_handle < old(
                self,
            ).next_task(),
        ensures
            final(self).wf(),
            final(self)@ == old(self)@.update(id as int, Some(t)),
            final(self).planet() == old(self).planet(),
            final(self).planet_id() == old(self).planet_id(),
            final(self).next_task() == old(self).next_task(),
    {
        self.nodes[id] = Some(t);
        proof {
            let s = old(self)@;
            let rz = self.planet().root_zoom_level;
            assert forall|i: int| 0 <= i < s.len() implies same_shape(
                #[trigger] s[i],
                self@[i],
            ) by {
                assert(node_wf(s, rz, self.planet_id(), self.next_task(), i));
            }
            assert forall|i: int| 0 <= i < self@.len() implies ((#[trigger] self@[i]) matches Some(
                m,
            ) ==> (m.download matches DownloadState::Started(st) ==> st.abort_handle
                < self.next_task())) by {
                assert(node_wf(s, rz, self.planet_id(), self.next_task(), i));
            }
            lemma_same_shape_wf(
                s,
                self@,
                rz,
                self.planet_id(),
                self.next_task(),
                self.next_task(),
            );
            lemma_same_shape_roots(s, self@, rz);
        }
    }

    /// Requests the planet's root tiles: every tile of the root level, column
    /// by column. Only a tree without tiles gets them; the ids requested are
    /// returned.
    pub fn spawn_root_planet_tiles(&mut self) -> (roots: Vec<NodeId>)
        requires
            old(self).wf(),
        ensures
            final(self).wf(),
            final(self).planet() == old(self).planet(),
            final(self).planet_id() == old(self).planet_id(),
            final(self).next_task() == old(self).next_task(),
            old(self)@.len() != 0 ==> final(self)@ == old(self)@ && roots@.len() == 0,
            old(self)@.len() == 0 ==> {
                let z = old(self).planet().root_zoom_level;
                &&& final(self)@.len() == pow2(z as nat) * pow2(z as nat)
                &&& roots@.len() == final(self)@.len()
                &&& forall|k: int|
                    0 <= k < roots@.len() ==> #[trigger] roots@[k] == k && final(self)@[k] == Some(
                        root_request(root_tile(z, k), old(self).planet_id()),
                    )
            },
    {
        let mut roots: Vec<NodeId> = Vec::new();
        if self.nodes.len() != 0 {
            return roots;
        }
        let z = self.planet.root_zoom_level;
        let tiles = TileCoord::get_root_tiles(z);
        let n = tiles.len();
        let mut k: usize = 0;
        while k < n
            invariant
                k <= n,
                n == tiles@.len(),
                z == self.planet().root_zoom_level,
                z < MAX_ZOOM,
                self.planet() == old(self).planet(),
                self.planet_id() == old(self).planet_id(),
                self.next_task() == old(self).next_task(),
                forall|j: int| 0 <= j < tiles@.len() ==> #[trigger] tiles@[j] == root_tile(z, j),
                forall|j: int| 0 <= j < tiles@.len() ==> (#[trigger] tiles@[j]).wf(),
                self@.len() == k,
                roots@.len() == k,
                forall|j: int| 0 <= j < k ==> #[trigger] roots@[j] == j,
                forall|j: int|
                    0 <= j < k ==> #[trigger] self@[j] == Some(
                        root_request(root_tile(z, j), self.planet_id()),
                    ),
            decreases n - k,
        {
            let coord = tiles[k];
            self.nodes.push(
                Some(
                    WebMercatorTile {
                        coord,
                        parent_tile: None,
                        parent_planet: self.planet_id,
                        children_tiles: None,
                        cartesian_diagonal: 0,
                        download: DownloadState::Pending(
                            DownloadPending { fail_cnt: 0, try_after: 0 },
                        ),
                        visibility: Visibility::Visible,
                        stage: TileStage::SpawnRequested,
                    },
                ),
            );
            roots.push(k);
            proof {
                assert(tiles@[k as int] == root_tile(z, k as int));
                assert(self@[k as int] == Some(
                    root_request(root_tile(z, k as int), self.planet_id()),
                ));
                assert(roots@[k as int] == k);
            }
            k += 1;
        }
        proof {
            assert forall|i: int| 0 <= i < self@.len() implies #[trigger] node_wf(
                self@,
                z,
                self.planet_id(),
                self.next_task(),
                i,
            ) by {
                assert(self@[i] == Some(root_request(root_tile(z, i), self.planet_id())));
                assert(tiles@[i].wf());
            }
            assert(roots_present(self@, z));
        }
        roots
    }

    /// Gives the requested tile `target` its geometry: it becomes a leaf
    /// that is looked at at once and waits for its image. Nothing happens,
    /// and `false` is returned, where `target` is no requested tile.
    pub fn spawn_tile_pls(&mut self, target: NodeId, cartesian_diagonal: u64) -> (spawned: bool)
        requires
            old(self).wf(),
        ensures
            final(self).wf(),
            final(self).planet() == old(self).planet(),
            final(self).planet_id() == old(self).planet_id(),
            final(self).next_task() == old(self).next_task(),
            final(self)@ == step_spec(old(self)@, TreeStep::Spawn { target, cartesian_diagonal }),
            spawned == (live(old(self)@, target as int)
                && old(self)@[target as int]->0.stage is SpawnRequested),
    {
        match self.get(target) {
            Some(t) => match t.stage {
                TileStage::SpawnRequested => {
                    proof {
                        assert(node_wf(
                            self@,
                            self.planet().root_zoom_level,
                            self.planet_id(),
                            self.next_task(),
                            target as int,
                        ));
                    }
                    let mut t = t;
                    t.cartesian_diagonal = cartesian_diagonal;
                    t.download = DownloadState::Pending(
                        DownloadPending { fail_cnt: 0, try_after: 0 },
                    );
                    t.stage = TileStage::Leaf(WebMercatorLeaf { check_after: 0 });
                    self.put(target, t);
                    true
                },
                _ => false,
            },
            None => false,
        }
    }

    /// The split and merge decision for one tile: whether it should be
    /// split, and whether it should be merged into its parent.
    pub fn decide_split_or_merge(tile: &WebMercatorTile, max_level: u8, effective: i64) -> (d: (
        bool,
        bool,
    ))
        ensures
            d.0 == should_split(tile.coord.z, max_level, effective),
            d.1 == should_merge(tile.parent_tile is Some, tile.coord.z, max_level, effective),
    {
        let split = effective > SPLIT_THRESHOLD && tile.coord.z < max_level && tile.coord.z
            < MAX_ZOOM;
        let merge = tile.parent_tile.is_some() && (tile.coord.z > max_level || effective
            < SPLIT_THRESHOLD / 4);
        (split, merge)
    }

    /// Looks at one leaf whose time has come, with the coverage `effective`
    /// that the camera gives it (in millionths): the leaf is marked for a
    /// split, or asks for a merge (its parent is returned and the leaf is
    /// left as it is), or is put off by the check interval plus `jitter`.
    pub fn decide_leaf(
        &mut self,
        leaf: NodeId,
        now: u64,
        max_level: u8,
        effective: i64,
        jitter: u64,
    ) -> (wish: Option<NodeId>)
        requires
            old(self).wf(),
        ensures
            final(self).wf(),
            final(self).planet() == old(self).planet(),
            final(self).planet_id() == old(self).planet_id(),
            final(self).next_task() == old(self).next_task(),
            final(self)@ == step_spec(
                old(self)@,
                TreeStep::Decide { leaf, now, max_level, effective, jitter },
            ),
            wish == merge_wish(old(self)@, leaf, now, max_level, effective),
    {
        match self.get(leaf) {
            Some(t) => {
                if !Self::matches_filter(TileFilter::LeafDue, &t, now) {
                    return None;
                }
                proof {
                    assert(node_wf(
                        self@,
                        self.planet().root_zoom_level,
                        self.planet_id(),
                        self.next_task(),
                        leaf as int,
                    ));
                }
                let (split, merge) = Self::decide_split_or_merge(&t, max_level, effective);
                if split {
                    let mut t = t;
                    t.stage = TileStage::SplitRequested;
                    self.put(leaf, t);
                    None
                } else if merge {
                    t.parent_tile
                } else {
                    let mut t = t;
                    t.stage = TileStage::Leaf(
                        WebMercatorLeaf {
                            check_after: now.saturating_add(CHECK_INTERVAL_MS).saturating_add(
                                jitter,
                            ),
                        },
                    );
                    self.put(leaf, t);
                    None
                }
            },
            None => None,
        }
    }

    /// Whether `c` is a leaf that the decision loop looks at.
    fn leaf_at(&self, c: NodeId) -> (yes: bool)
        ensures
            yes == is_leaf(self@, c),
    {
        match self.get(c) {
            Some(t) => match t.stage {
                TileStage::Leaf(_) => true,
                _ => false,
            },
            None => false,
        }
    }

    /// Whether `c` has its geometry and its image.
    fn downloaded_at(&self, c: NodeId) -> (yes: bool)
        ensures
            yes == is_downloaded(self@, c),
    {
        match self.get(c) {
            Some(t) => match t.stage {
                TileStage::SpawnRequested => false,
                _ => match t.download {
                    DownloadState::Finished(_) => true,
                    _ => false,
                },
            },
            None => false,
        }
    }

    /// Marks `parent` for a merge, where all four children are leaves and
    /// `parent` itself, under the coverage `effective`, does not want to be
    /// split: the children leave the decision loop. Returns whether it was
    /// marked.
    pub fn request_merge(&mut self, parent: NodeId, max_level: u8, effective: i64) -> (marked: bool)
        requires
            old(self).wf(),
        ensures
            final(self).wf(),
            final(self).planet() == old(self).planet(),
            final(self).planet_id() == old(self).planet_id(),
            final(self).next_task() == old(self).next_task(),
            final(self)@ == step_spec(
                old(self)@,
                TreeStep::RequestMerge { parent, max_level, effective },
            ),
            marked == merge_request_applies(old(self)@, parent, max_level, effective),
    {
        let t = match self.get(parent) {
            Some(t) => t,
            None => { return false; },
        };
        match t.stage {
            TileStage::Interior(_) => {},
            _ => { return false; },
        }
        let ch = match t.children_tiles {
            Some(ch) => ch,
            None => { return false; },
        };
        if !(self.leaf_at(ch[0]) && self.leaf_at(ch[1]) && self.leaf_at(ch[2]) && self.leaf_at(
            ch[3],
        )) {
            return false;
        }
        let (split, _) = Self::decide_split_or_merge(&t, max_level, effective);
        if split {
            return false;
        }
        let ghost s = self@;
        let ghost rz = self.planet().root_zoom_level;
        let ghost pid = self.planet_id();
        let ghost nt = self.next_task();
        proof {
            lemma_children_distinct(s, rz, pid, nt, parent as int);
        }
        let mut k: usize = 0;
        while k < 4
            invariant
                k <= 4,
                self.planet() == old(self).planet(),
                self.planet_id() == old(self).planet_id(),
                self.next_task() == old(self).next_task(),
                s == old(self)@,
                self@.len() == s.len(),
                live(s, parent as int),
                s[parent as int]->0.children_tiles == Some(ch),
                ch[0] != ch[1] && ch[0] != ch[2] && ch[0] != ch[3] && ch[1] != ch[2] && ch[1]
                    != ch[3] && ch[2] != ch[3],
                ch[0] != parent && ch[1] != parent && ch[2] != parent && ch[3] != parent,
                is_leaf(s, ch[0]) && is_leaf(s, ch[1]) && is_leaf(s, ch[2]) && is_leaf(s, ch[3]),
                forall|i: int|
                    0 <= i < s.len() ==> #[trigger] self@[i] == (if exists|j: int|
                        0 <= j < k && ch[j] == i {
                        Some(with_stage(s[i]->0, TileStage::Retiring))
                    } else {
                        s[i]
                    }),
            decreases 4 - k,
        {
            let c = ch[k];
            let mut child = self.nodes[c].unwrap();
            child.stage = TileStage::Retiring;
            let ghost before = self@;
            self.nodes[c] = Some(child);
            proof {
                assert forall|i: int| 0 <= i < s.len() implies #[trigger] self@[i] == (if exists|
                    j: int,
                |
                    0 <= j < k + 1 && ch[j] == i {
                    Some(with_stage(s[i]->0, TileStage::Retiring))
                } else {
                    s[i]
                }) by {
                    if i == c as int {
                        assert(ch[k as int] == i);
                        assert(!(exists|j: int| 0 <= j < k && ch[j] == i));
                    } else {
                        assert(self@[i] == before[i]);
                        if exists|j: int| 0 <= j < k + 1 && ch[j] == i {
                            let j = choose|j: int| 0 <= j < k + 1 && ch[j] == i;
                            assert(0 <= j < k && ch[j] == i);
                        }
                    }
                }
            }
            k += 1;
        }
        let mut marked_parent = t;
        marked_parent.stage = TileStage::MergeRequested;
        let ghost mid = self@;
        self.nodes[parent] = Some(marked_parent);
        proof {
            let t2 = self@;
            assert(mid[ch[0] as int] == Some(with_stage(s[ch[0] as int]->0, TileStage::Retiring)))
                by {
                assert(ch[0] == ch[0] as int);
            }
            assert(mid[ch[1] as int] == Some(with_stage(s[ch[1] as int]->0, TileStage::Retiring)))
                by {
                assert(ch[1] == ch[1] as int);
            }
            assert(mid[ch[2] as int] == Some(with_stage(s[ch[2] as int]->0, TileStage::Retiring)))
                by {
                assert(ch[2] == ch[2] as int);
            }
            assert(mid[ch[3] as int] == Some(with_stage(s[ch[3] as int]->0, TileStage::Retiring)))
                by {
                assert(ch[3] == ch[3] as int);
            }
            let want = step_spec(s, TreeStep::RequestMerge { parent, max_level, effective });
            assert(merge_request_applies(s, parent, max_level, effective));
            assert(t2 =~= want) by {
                assert forall|i: int| 0 <= i < s.len() implies t2[i] == want[i] by {
                    if i != parent as int && i != ch[0] as int && i != ch[1] as int && i
                        != ch[2] as int && i != ch[3] as int {
                        assert(mid[i] == s[i]);
                    }
                }
            }
            assert forall|i: int| 0 <= i < t2.len() implies #[trigger] node_wf(
                t2,
                rz,
                pid,
                nt,
                i,
            ) by {
                assert(node_wf(s, rz, pid, nt, i));
                if t2[i] is Some {
                    let n = s[i]->0;
                    if i == parent as int {
                        match n.parent_tile {
                            Some(p) => {
                                assert(node_wf(s, rz, pid, nt, ch[0] as int));
                                assert(node_wf(s, rz, pid, nt, ch[1] as int));
                                assert(node_wf(s, rz, pid, nt, ch[2] as int));
                                assert(node_wf(s, rz, pid, nt, ch[3] as int));
                                lemma_childless_is_no_parent(s, rz, pid, nt, ch[0], i);
                                lemma_childless_is_no_parent(s, rz, pid, nt, ch[1], i);
                                lemma_childless_is_no_parent(s, rz, pid, nt, ch[2], i);
                                lemma_childless_is_no_parent(s, rz, pid, nt, ch[3], i);
                                assert(t2[p as int] == s[p as int]);
                            },
                            None => {},
                        }
                    } else if i == ch[0] as int || i == ch[1] as int || i == ch[2] as int || i
                        == ch[3] as int {
                    } else {
                        assert(t2[i] == s[i]);
                        match n.parent_tile {
                            Some(p) => {
                                assert(node_wf(s, rz, pid, nt, p as int));
                                assert(p != parent);
                                assert(node_wf(s, rz, pid, nt, ch[0] as int));
                                assert(node_wf(s, rz, pid, nt, ch[1] as int));
                                assert(node_wf(s, rz, pid, nt, ch[2] as int));
                                assert(node_wf(s, rz, pid, nt, ch[3] as int));
                                assert(t2[p as int] == s[p as int]);
                            },
                            None => {},
                        }
                        match n.children_tiles {
                            Some(kids) => {
                                assert(child_ok(t2, i, kids[0], 0));
                                assert(child_ok(t2, i, kids[1], 1));
                                assert(child_ok(t2, i, kids[2], 2));
                                assert(child_ok(t2, i, kids[3], 3));
                            },
                            None => {},
                        }
                    }
                }
            }
            lemma_kept_roots(s, t2, rz);
        }
        true
    }

    /// Splits a tile that is marked for it: four children are requested,
    /// with the next four ids, and the tile waits for their images. Returns
    /// the children's ids, or `None`, with nothing changed, where `tile` is
    /// not marked for a split or the ids have run out.
    pub fn split_tile(&mut self, tile: NodeId) -> (kids: Option<[NodeId; 4]>)
        requires
            old(self).wf(),
        ensures
            final(self).wf(),
            final(self).planet() == old(self).planet(),
            final(self).planet_id() == old(self).planet_id(),
            final(self).next_task() == old(self).next_task(),
            final(self)@ == step_spec(old(self)@, TreeStep::Split { tile }),
            kids is Some <==> split_applies(old(self)@, tile),
            kids matches Some(ch) ==> final(self)@[tile as int]->0.children_tiles == Some(ch)
                && ch[0] == old(self)@.len() && ch[1] == ch[0] + 1 && ch[2] == ch[0] + 2 && ch[3]
                == ch[0] + 3,
    {
        let t = match self.get(tile) {
            Some(t) => t,
            None => { return None; },
        };
        match t.stage {
            TileStage::SplitRequested => {},
            _ => { return None; },
        }
        let n = self.nodes.len();
        if n > usize::MAX - 4 {
            return None;
        }
        let ghost s = self@;
        let ghost rz = self.planet().root_zoom_level;
        let ghost pid = self.planet_id();
        let ghost nt = self.next_task();
        proof {
            assert(node_wf(s, rz, pid, nt, tile as int));
        }
        let coords = t.coord.children();
        let ch: [NodeId; 4] = [n, n + 1, n + 2, n + 3];
        let mut parent = t;
        parent.children_tiles = Some(ch);
        parent.stage = TileStage::Interior(Some(CheckPostSplit { next_check_at: 0 }));
        self.nodes[tile] = Some(parent);
        let mut k: usize = 0;
        while k < 4
            invariant
                k <= 4,
                n + 4 <= usize::MAX,
                n == s.len(),
                live(s, tile as int),
                t == s[tile as int]->0,
                self.planet() == old(self).planet(),
                self.planet_id() == old(self).planet_id(),
                self.next_task() == old(self).next_task(),
                pid == self.planet_id(),
                forall|j: int| 0 <= j < 4 ==> #[trigger] coords[j] == t.coord.child(j),
                self@.len() == n + k,
                forall|i: int| 0 <= i < n && i != tile ==> #[trigger] self@[i] == s[i],
                self@[tile as int] == Some(parent),
                forall|j: int|
                    0 <= j < k ==> #[trigger] self@[n + j] == Some(
                        child_request(tile, t.coord.child(j), t.parent_planet),
                    ),
            decreases 4 - k,
        {
            let coord = coords[k];
            proof {
                assert(coords[k as int] == t.coord.child(k as int));
            }
            self.nodes.push(
                Some(
                    WebMercatorTile {
                        coord,
                        parent_tile: Some(tile),
                        parent_planet: t.parent_planet,
                        children_tiles: None,
                        cartesian_diagonal: 0,
                        download: DownloadState::Pending(
                            DownloadPending { fail_cnt: 0, try_after: 0 },
                        ),
                        visibility: Visibility::Visible,
                        stage: TileStage::SpawnRequested,
                    },
                ),
            );
            k += 1;
        }
        proof {
            let t2 = self@;
            let want = step_spec(s, TreeStep::Split { tile });
            assert(split_applies(s, tile));
            assert(ch[0] == n && ch[1] == n + 1 && ch[2] == n + 2 && ch[3] == n + 3);
            let lit: [NodeId; 4] = [
                s.len() as usize,
                (s.len() as usize + 1) as usize,
                (s.len() as usize + 2) as usize,
                (s.len() as usize + 3) as usize,
            ];
            assert(ch@ =~= lit@);
            assert(ch == lit);
            assert(t2.len() == want.len());
            assert(t2 =~= want) by {
                assert forall|i: int| 0 <= i < t2.len() implies t2[i] == want[i] by {
                    if i >= n {
                        assert(t2[n + (i - n)] == Some(
                            child_request(tile, t.coord.child(i - n), t.parent_planet),
                        ));
                    } else if i != tile as int {
                        assert(t2[i] == s[i]);
                    }
                }
            }
            lemma_child_wf(t.coord, 0);
            lemma_child_wf(t.coord, 1);
            lemma_child_wf(t.coord, 2);
            lemma_child_wf(t.coord, 3);
            assert(t2[n + 0] == Some(child_request(tile, t.coord.child(0), t.parent_planet)));
            assert(t2[n + 1] == Some(child_request(tile, t.coord.child(1), t.parent_planet)));
            assert(t2[n + 2] == Some(child_request(tile, t.coord.child(2), t.parent_planet)));
            assert(t2[n + 3] == Some(child_request(tile, t.coord.child(3), t.parent_planet)));
            assert forall|i: int| 0 <= i < t2.len() implies #[trigger] node_wf(
                t2,
                rz,
                pid,
                nt,
                i,
            ) by {
                if i >= n {
                    assert(t2[n + (i - n)] == Some(
                        child_request(tile, t.coord.child(i - n), t.parent_planet),
                    ));
                    assert(ch[i - n] == i);
                } else if i == tile as int {
                    match t.parent_tile {
                        Some(p) => {
                            lemma_childless_is_no_parent(s, rz, pid, nt, tile, tile as int);
                            assert(t2[p as int] == s[p as int]);
                        },
                        None => {},
                    }
                    assert(child_ok(t2, i, ch[0], 0));
                    assert(child_ok(t2, i, ch[1], 1));
                    assert(child_ok(t2, i, ch[2], 2));
                    assert(child_ok(t2, i, ch[3], 3));
                } else {
                    assert(node_wf(s, rz, pid, nt, i));
                    assert(t2[i] == s[i]);
                    if t2[i] is Some {
                        let node = s[i]->0;
                        match node.parent_tile {
                            Some(p) => {
                                lemma_childless_is_no_parent(s, rz, pid, nt, tile, i);
                                assert(t2[p as int] == s[p as int]);
                            },
                            None => {},
                        }
                        match node.children_tiles {
                            Some(kids) => {
                                assert(child_ok(t2, i, kids[0], 0));
                                assert(child_ok(t2, i, kids[1], 1));
                                assert(child_ok(t2, i, kids[2], 2));
                                assert(child_ok(t2, i, kids[3], 3));
                            },
                            None => {},
                        }
                    }
                }
            }
            lemma_kept_roots(s, t2, rz);
        }
        Some(ch)
    }

    /// The handle of the download in flight for tile `c`, pushed on `out`.
    fn collect_handle(&self, c: NodeId, out: &mut Vec<u64>)
        ensures
            final(out)@ == old(out)@ + started_handle(self@, c),
    {
        match self.get(c) {
            Some(t) => match t.download {
                DownloadState::Started(st) => {
                    out.push(st.abort_handle);
                    proof {
                        assert(out@ =~= old(out)@ + started_handle(self@, c));
                    }
                },
                _ => {
                    proof {
                        assert(out@ =~= old(out)@ + started_handle(self@, c));
                    }
                },
            },
            None => {
                proof {
                    assert(out@ =~= old(out)@ + started_handle(self@, c));
                }
            },
        }
    }

    /// Merges a tile that is marked for it: its four children, which are
    /// all of its descendants, leave the tree, and the tile is a visible
    /// leaf again that is looked at at once; its own download state stays.
    /// Returns the handles of the children's downloads in flight, which the
    /// caller aborts. Nothing happens where `tile` is not marked for a merge.
    pub fn merge_tile(&mut self, tile: NodeId) -> (aborted: Vec<u64>)
        requires
            old(self).wf(),
        ensures
            final(self).wf(),
            final(self).planet() == old(self).planet(),
            final(self).planet_id() == old(self).planet_id(),
            final(self).next_task() == old(self).next_task(),
            final(self)@ == step_spec(old(self)@, TreeStep::Merge { tile }),
            aborted@ == merge_aborts(old(self)@, tile),
    {
        let mut aborted: Vec<u64> = Vec::new();
        let t = match self.get(tile) {
            Some(t) => t,
            None => { return aborted; },
        };
        match t.stage {
            TileStage::MergeRequested => {},
            _ => { return aborted; },
        }
        let ch = match t.children_tiles {
            Some(ch) => ch,
            None => { return aborted; },
        };
        let ghost s = self@;
        let ghost rz = self.planet().root_zoom_level;
        let ghost pid = self.planet_id();
        let ghost nt = self.next_task();
        let n = self.nodes.len();
        proof {
            assert(s.len() == n);
            lemma_children_distinct(s, rz, pid, nt, tile as int);
        }
        self.collect_handle(ch[0], &mut aborted);
        self.collect_handle(ch[1], &mut aborted);
        self.collect_handle(ch[2], &mut aborted);
        self.collect_handle(ch[3], &mut aborted);
        proof {
            assert(aborted@ =~= merge_aborts(s, tile));
        }
        self.nodes[ch[0]] = None;
        self.nodes[ch[1]] = None;
        self.nodes[ch[2]] = None;
        self.nodes[ch[3]] = None;
        let mut leaf = t;
        leaf.children_tiles = None;
        leaf.stage = TileStage::Leaf(WebMercatorLeaf { check_after: 0 });
        leaf.visibility = Visibility::Visible;
        self.nodes[tile] = Some(leaf);
        proof {
            let t2 = self@;
            assert(s.len() == n);
            assert(merge_applies(s, tile));
            assert(t2 =~= step_spec(s, TreeStep::Merge { tile }));
            assert(node_wf(s, rz, pid, nt, ch[0] as int));
            assert(node_wf(s, rz, pid, nt, ch[1] as int));
            assert(node_wf(s, rz, pid, nt, ch[2] as int));
            assert(node_wf(s, rz, pid, nt, ch[3] as int));
            assert forall|i: int| 0 <= i < t2.len() implies #[trigger] node_wf(
                t2,
                rz,
                pid,
                nt,
                i,
            ) by {
                assert(node_wf(s, rz, pid, nt, i));
                if t2[i] is Some {
                    let node = s[i]->0;
                    lemma_childless_is_no_parent(s, rz, pid, nt, ch[0], i);
                    lemma_childless_is_no_parent(s, rz, pid, nt, ch[1], i);
                    lemma_childless_is_no_parent(s, rz, pid, nt, ch[2], i);
                    lemma_childless_is_no_parent(s, rz, pid, nt, ch[3], i);
                    if i == tile as int {
                        match node.parent_tile {
                            Some(p) => {
                                assert(t2[p as int] == s[p as int]);
                            },
                            None => {},
                        }
                    } else {
                        assert(t2[i] == s[i]);
                        match node.parent_tile {
                            Some(p) => {
                                assert(node_wf(s, rz, pid, nt, p as int));
                                assert(p != tile);
                                assert(t2[p as int] == s[p as int]);
                            },
                            None => {},
                        }
                        match node.children_tiles {
                            Some(kids) => {
                                assert(child_ok(t2, i, kids[0], 0));
                                assert(child_ok(t2, i, kids[1], 1));
                                assert(child_ok(t2, i, kids[2], 2));
                                assert(child_ok(t2, i, kids[3], 3));
                            },
                            None => {},
                        }
                    }
                }
            }
            lemma_kept_roots(s, t2, rz);
        }
        aborted
    }

    /// Looks at the children of a split tile whose time has come: once all
    /// four have their geometry and their image, the tile stands back for
    /// them and is looked at no more; until then the next look is put off by
    /// the interval plus `jitter`. Returns whether the tile now stands back.
    pub fn check_post_split_tile(&mut self, tile: NodeId, now: u64, jitter: u64) -> (replaced: bool)
        requires
            old(self).wf(),
        ensures
            final(self).wf(),
            final(self).planet() == old(self).planet(),
            final(self).planet_id() == old(self).planet_id(),
            final(self).next_task() == old(self).next_task(),
            final(self)@ == step_spec(old(self)@, TreeStep::PostSplit { tile, now, jitter }),
            replaced == (post_split_applies(old(self)@, tile, now) && {
                let ch = old(self)@[tile as int]->0.children_tiles->0;
                is_downloaded(old(self)@, ch[0]) && is_downloaded(old(self)@, ch[1])
                    && is_downloaded(old(self)@, ch[2]) && is_downloaded(old(self)@, ch[3])
            }),
    {
        let t = match self.get(tile) {
            Some(t) => t,
            None => { return false; },
        };
        if !Self::matches_filter(TileFilter::PostSplitDue, &t, now) {
            return false;
        }
        let ch = match t.children_tiles {
            Some(ch) => ch,
            None => { return false; },
        };
        proof {
            assert(node_wf(
                self@,
                self.planet().root_zoom_level,
                self.planet_id(),
                self.next_task(),
                tile as int,
            ));
        }
        let all_downloaded = self.downloaded_at(ch[0]) && self.downloaded_at(ch[1])
            && self.downloaded_at(ch[2]) && self.downloaded_at(ch[3]);
        let mut t = t;
        if all_downloaded {
            t.visibility = Visibility::Replaced;
            t.stage = TileStage::Interior(None);
        } else {
            t.stage = TileStage::Interior(
                Some(
                    CheckPostSplit {
                        next_check_at: now.saturating_add(POST_SPLIT_INTERVAL_MS).saturating_add(
                            jitter,
                        ),
                    },
                ),
            );
        }
        self.put(tile, t);
        all_downloaded
    }

    /// `2^fail_cnt` seconds in milliseconds, or the largest time.
    fn backoff(fail_cnt: u8) -> (ms: u64)
        ensures
            ms == backoff_ms(fail_cnt),
    {
        if fail_cnt >= 55 {
            proof {
                lemma2_to64_rest();
                if fail_cnt > 55 {
                    lemma_pow2_strictly_increases(55, fail_cnt as nat);
                }
                assert(pow2(fail_cnt as nat) * 1000 > u64::MAX) by (nonlinear_arith)
                    requires
                        pow2(fail_cnt as nat) >= 0x80000000000000,
                ;
            }
            u64::MAX
        } else {
            proof {
                lemma_side_is_pow2(fail_cnt);
                lemma2_to64_rest();
                if fail_cnt < 54 {
                    lemma_pow2_strictly_increases(fail_cnt as nat, 54);
                }
                assert(pow2(fail_cnt as nat) * 1000 <= u64::MAX) by (nonlinear_arith)
                    requires
                        pow2(fail_cnt as nat) <= 0x40000000000000,
                ;
            }
            (1u64 << fail_cnt) * 1000
        }
    }

    /// Starts the download of a waiting tile under the next handle.
    fn start_download(&mut self, tile: NodeId) -> (d: Option<TileDownload>)
        requires
            old(self).wf(),
            old(self).next_task() < u64::MAX,
        ensures
            final(self).wf(),
            final(self).planet() == old(self).planet(),
            final(self).planet_id() == old(self).planet_id(),
            final(self)@ == step_spec(
                old(self)@,
                TreeStep::Start { tile, handle: old(self).next_task() },
            ),
            d is Some <==> is_spawned(old(self)@, tile) && old(self)@[tile as int]->0.download
                is Pending,
            d is None ==> final(self).next_task() == old(self).next_task(),
            d matches Some(dl) ==> final(self).next_task() == old(self).next_task() + 1 && dl
                == (TileDownload {
                target: tile,
                tile: old(self)@[tile as int]->0.coord,
                abort_handle: old(self).next_task(),
                pending_info: old(self)@[tile as int]->0.download->Pending_0,
            }),
    {
        let t = match self.get(tile) {
            Some(t) => t,
            None => { return None; },
        };
        match t.stage {
            TileStage::SpawnRequested => { return None; },
            _ => {},
        }
        let pending_info = match t.download {
            DownloadState::Pending(p) => p,
            _ => { return None; },
        };
        let handle = self.next_task;
        proof {
            lemma_wf_next_task(
                self@,
                self.planet().root_zoom_level,
                self.planet_id(),
                handle,
                (handle + 1) as u64,
            );
            assert(node_wf(
                self@,
                self.planet().root_zoom_level,
                self.planet_id(),
                handle,
                tile as int,
            ));
        }
        self.next_task = handle + 1;
        let mut started = t;
        started.download = DownloadState::Started(
            DownloadStarted { abort_handle: handle, pending_info },
        );
        self.put(tile, started);
        Some(TileDownload { target: tile, tile: t.coord, abort_handle: handle, pending_info })
    }

    /// Takes one download result at time `now`: a result whose tile is gone
    /// or has no geometry, or that names another coordinate, planet or tile
    /// server than the tile and planet have now, is dropped. Of the others,
    /// one with an image marks the tile as finished; one without puts the
    /// tile back to waiting, with one more failure than the download was
    /// started with and a delay of the base, `jitter` and `2^fail_cnt`
    /// seconds. Returns the step taken.
    pub fn insert_downloaded_planet_tile(
        &mut self,
        msg: &TileFetchResultData,
        now: u64,
        jitter: u64,
    ) -> (step: TreeStep)
        requires
            old(self).wf(),
        ensures
            final(self).wf(),
            final(self).planet() == old(self).planet(),
            final(self).planet_id() == old(self).planet_id(),
            final(self).next_task() == old(self).next_task(),
            step == result_step(old(self)@, old(self).planet(), *msg, now, jitter),
            final(self)@ == step_spec(old(self)@, step),
    {
        let t = match self.get(msg.target) {
            Some(t) => t,
            None => { return TreeStep::Discard { tile: msg.target }; },
        };
        match t.stage {
            TileStage::SpawnRequested => { return TreeStep::Discard { tile: msg.target }; },
            _ => {},
        }
        if !(t.coord == msg.tile) || !(msg.planet_name == self.planet.planet_name) || !(
        msg.tile_type == self.planet.tile_type) {
            return TreeStep::Discard { tile: msg.target };
        }
        proof {
            assert(node_wf(
                self@,
                self.planet().root_zoom_level,
                self.planet_id(),
                self.next_task(),
                msg.target as int,
            ));
        }
        let mut t = t;
        match msg.image {
            Some(_) => {
                t.download = DownloadState::Finished(DownloadFinished);
                self.put(msg.target, t);
                TreeStep::Finished { tile: msg.target }
            },
            None => {
                let fail_cnt = msg.pending_info.fail_cnt;
                t.download = DownloadState::Pending(
                    DownloadPending {
                        fail_cnt: if fail_cnt < u8::MAX {
                            fail_cnt + 1
                        } else {
                            u8::MAX
                        },
                        try_after: now.saturating_add(RETRY_BASE_MS).saturating_add(
                            jitter,
                        ).saturating_add(Self::backoff(fail_cnt)),
                    },
                );
                self.put(msg.target, t);
                TreeStep::Failed { tile: msg.target, fail_cnt, now, jitter }
            },
        }
    }

    /// Number of tiles that `filter` looks for at time `now`.
    pub fn count(&self, filter: TileFilter, now: u64) -> (c: usize)
        ensures
            c == count_matching(self@, filter, now, self@.len() as int),
    {
        let n = self.nodes.len();
        let mut c: usize = 0;
        let mut i: usize = 0;
        while i < n
            invariant
                i <= n,
                n == self@.len(),
                c <= i,
                c == count_matching(self@, filter, now, i as int),
            decreases n - i,
        {
            match self.nodes[i] {
                Some(t) => {
                    if Self::matches_filter(filter, &t, now) {
                        c += 1;
                    }
                },
                None => {},
            }
            i += 1;
        }
        c
    }

    /// The requested tiles that wait for their geometry, at most
    /// `MAX_SPAWNS_PER_FRAME` of them, lowest ids first.
    pub fn pending_spawn_requests(&self) -> (requests: Vec<SpawnTilePls>)
        ensures
            is_selection(
                self@,
                TileFilter::SpawnRequested,
                0,
                MAX_SPAWNS_PER_FRAME,
                Seq::new(requests@.len(), |k: int| requests@[k].target),
            ),
            forall|k: int|
                0 <= k < requests@.len() ==> (#[trigger] requests@[k]).coord
                    == self@[requests@[k].target as int]->0.coord && requests@[k].is_root
                    == (self@[requests@[k].target as int]->0.parent_tile is None),
    {
        let ids = self.select(TileFilter::SpawnRequested, 0, MAX_SPAWNS_PER_FRAME);
        let mut requests: Vec<SpawnTilePls> = Vec::new();
        let mut k: usize = 0;
        while k < ids.len()
            invariant
                k <= ids@.len(),
                requests@.len() == k,
                forall|j: int| 0 <= j < ids@.len() ==> live(self@, #[trigger] ids@[j] as int),
                forall|j: int|
                    0 <= j < k ==> (#[trigger] requests@[j]).target == ids@[j] && requests@[j].coord
                        == self@[ids@[j] as int]->0.coord && requests@[j].is_root == (
                    self@[ids@[j] as int]->0.parent_tile is None),
            decreases ids@.len() - k,
        {
            let id = ids[k];
            let t = self.nodes[id].unwrap();
            requests.push(
                SpawnTilePls { target: id, coord: t.coord, is_root: t.parent_tile.is_none() },
            );
            k += 1;
        }
        proof {
            assert(Seq::new(requests@.len(), |k: int| requests@[k].target) =~= ids@);
        }
        requests
    }

    /// The leaves to look at in this frame: `MAX_DECISIONS_PER_FRAME` of the
    /// leaves whose time has come, chosen at random (all of them where there
    /// are fewer), each once.
    pub fn leaves_to_check(&self, now: u64) -> (leaves: Vec<NodeId>)
        ensures
            leaves@.len() == if count_matching(
                self@,
                TileFilter::LeafDue,
                now,
                self@.len() as int,
            ) < MAX_DECISIONS_PER_FRAME {
                count_matching(self@, TileFilter::LeafDue, now, self@.len() as int)
            } else {
                MAX_DECISIONS_PER_FRAME as nat
            },
            leaves@.no_duplicates(),
            forall|k: int| 0 <= k < leaves@.len() ==> decide_applies(self@, #[trigger] leaves@[k], now),
    {
        let due = self.select(TileFilter::LeafDue, now, usize::MAX);
        let amount = if due.len() < MAX_DECISIONS_PER_FRAME {
            due.len()
        } else {
            MAX_DECISIONS_PER_FRAME
        };
        let picks = sample_indices(due.len(), amount);
        let mut leaves: Vec<NodeId> = Vec::new();
        let mut k: usize = 0;
        while k < picks.len()
            invariant
                k <= picks@.len(),
                leaves@.len() == k,
                forall|j: int| 0 <= j < picks@.len() ==> #[trigger] picks@[j] < due@.len(),
                forall|j: int| 0 <= j < k ==> #[trigger] leaves@[j] == due@[picks@[j] as int],
            decreases picks@.len() - k,
        {
            leaves.push(due[picks[k]]);
            k += 1;
        }
        proof {
            assert forall|a: int, b: int|
                0 <= a < leaves@.len() && 0 <= b < leaves@.len() && a != b implies leaves@[a]
                != leaves@[b] by {
                let pa = picks@[a] as int;
                let pb = picks@[b] as int;
                assert(pa != pb);
                if pa < pb {
                    assert(due@[pa] < due@[pb]);
                } else {
                    assert(due@[pb] < due@[pa]);
                }
            }
            assert forall|k: int| 0 <= k < leaves@.len() implies decide_applies(
                self@,
                #[trigger] leaves@[k],
                now,
            ) by {
                let pk = picks@[k] as int;
                assert(live(self@, due@[pk] as int));
            }
        }
        leaves
    }

    /// The decision loop of one frame. The first `MAX_DECISIONS_PER_FRAME`
    /// observations are taken in order: each leaf whose time has come is
    /// marked for a split, or asks for a merge, or is put off by the check
    /// interval and a random jitter. Then, in the same order, the parent of
    /// each leaf that asked for a merge is marked for it, if by then all of
    /// its children are still leaves and the parent's own coverage does not
    /// ask for a split: a split always wins over a merge.
    pub fn check_merge_or_split(
        &mut self,
        now: u64,
        max_level: u8,
        observations: &Vec<LeafObservation>,
    ) -> (log: DecisionLog)
        requires
            old(self).wf(),
        ensures
            final(self).wf(),
            final(self).planet() == old(self).planet(),
            final(self).planet_id() == old(self).planet_id(),
            final(self).next_task() == old(self).next_task(),
            log.decided@.len() == if observations@.len() < MAX_DECISIONS_PER_FRAME {
                observations@.len()
            } else {
                MAX_DECISIONS_PER_FRAME as nat
            },
            forall|k: int|
                0 <= k < log.decided@.len() ==> is_leaf_look(
                    #[trigger] log.decided@[k],
                    observations@[k],
                    now,
                    max_level,
                ),
            log.merges@ == merge_requests(
                old(self)@,
                now,
                max_level,
                observations@.take(log.decided@.len() as int),
                log.decided@,
            ),
            final(self)@ == run(run(old(self)@, log.decided@), log.merges@),
    {
        let n = if observations.len() < MAX_DECISIONS_PER_FRAME {
            observations.len()
        } else {
            MAX_DECISIONS_PER_FRAME
        };
        let mut decided: Vec<TreeStep> = Vec::new();
        let mut merges: Vec<TreeStep> = Vec::new();
        let ghost start = self@;
        let mut k: usize = 0;
        proof {
            assert(observations@.take(0) =~= Seq::<LeafObservation>::empty());
        }
        while k < n
            invariant
                k <= n <= observations@.len(),
                start == old(self)@,
                self.wf(),
                self.planet() == old(self).planet(),
                self.planet_id() == old(self).planet_id(),
                self.next_task() == old(self).next_task(),
                decided@.len() == k,
                forall|j: int|
                    0 <= j < k ==> is_leaf_look(
                        #[trigger] decided@[j],
                        observations@[j],
                        now,
                        max_level,
                    ),
                self@ == run(start, decided@),
                merges@ == merge_requests(
                    start,
                    now,
                    max_level,
                    observations@.take(k as int),
                    decided@,
                ),
                forall|j: int| 0 <= j < merges@.len() ==> (#[trigger] merges@[j]) is RequestMerge,
            decreases n - k,
        {
            let obs = observations[k];
            let jitter = random_below(CHECK_JITTER_MS);
            let step = TreeStep::Decide {
                leaf: obs.leaf,
                now,
                max_level,
                effective: obs.effective,
                jitter,
            };
            let ghost before_steps = decided@;
            let ghost before_merges = merges@;
            let wish = self.decide_leaf(obs.leaf, now, max_level, obs.effective, jitter);
            decided.push(step);
            match wish {
                Some(parent) => {
                    merges.push(
                        TreeStep::RequestMerge {
                            parent,
                            max_level,
                            effective: obs.parent_effective,
                        },
                    );
                },
                None => {},
            }
            proof {
                lemma_run_push(start, before_steps, step);
                let taken = observations@.take(k + 1);
                assert(taken.drop_last() =~= observations@.take(k as int));
                assert(taken.last() == obs);
                assert(decided@.drop_last() =~= before_steps);
            }
            k += 1;
        }
        let ghost mid = self@;
        let mut j: usize = 0;
        proof {
            assert(merges@.take(0) =~= Seq::<TreeStep>::empty());
        }
        while j < merges.len()
            invariant
                j <= merges@.len(),
                self.wf(),
                self.planet() == old(self).planet(),
                self.planet_id() == old(self).planet_id(),
                self.next_task() == old(self).next_task(),
                forall|i: int| 0 <= i < merges@.len() ==> (#[trigger] merges@[i]) is RequestMerge,
                self@ == run(mid, merges@.take(j as int)),
            decreases merges@.len() - j,
        {
            let step = merges[j];
            match step {
                TreeStep::RequestMerge { parent, max_level: deepest, effective } => {
                    let _ = self.request_merge(parent, deepest, effective);
                },
                _ => {},
            }
            proof {
                assert(merges@[j as int] is RequestMerge);
                lemma_run_push(mid, merges@.take(j as int), step);
                assert(merges@.take(j as int).push(step) =~= merges@.take(j + 1));
            }
            j += 1;
        }
        proof {
            assert(merges@.take(merges@.len() as int) =~= merges@);
        }
        DecisionLog { decided, merges }
    }

    /// Splits the tiles marked for it, at most `MAX_RESHAPES_PER_FRAME` of
    /// them, lowest ids first; returns the tiles it took up.
    pub fn split_tiles_pls(&mut self) -> (split: Vec<NodeId>)
        requires
            old(self).wf(),
        ensures
            final(self).wf(),
            final(self).planet() == old(self).planet(),
            final(self).planet_id() == old(self).planet_id(),
            final(self).next_task() == old(self).next_task(),
            is_selection(
                old(self)@,
                TileFilter::SplitRequested,
                0,
                MAX_RESHAPES_PER_FRAME,
                split@,
            ),
            final(self)@ == run(old(self)@, split_steps(split@)),
    {
        let ids = self.select(TileFilter::SplitRequested, 0, MAX_RESHAPES_PER_FRAME);
        let ghost start = self@;
        let mut k: usize = 0;
        proof {
            assert(split_steps(ids@.take(0)) =~= Seq::<TreeStep>::empty());
        }
        while k < ids.len()
            invariant
                k <= ids@.len(),
                self.wf(),
                self.planet() == old(self).planet(),
                self.planet_id() == old(self).planet_id(),
                self.next_task() == old(self).next_task(),
                self@ == run(start, split_steps(ids@.take(k as int))),
            decreases ids@.len() - k,
        {
            let _ = self.split_tile(ids[k]);
            proof {
                let step = TreeStep::Split { tile: ids@[k as int] };
                lemma_run_push(start, split_steps(ids@.take(k as int)), step);
                assert(split_steps(ids@.take(k as int)).push(step) =~= split_steps(
                    ids@.take(k + 1),
                ));
            }
            k += 1;
        }
        proof {
            assert(ids@.take(ids@.len() as int) =~= ids@);
        }
        ids
    }

    /// Merges the tiles marked for it, at most `MAX_RESHAPES_PER_FRAME` of
    /// them, lowest ids first; returns the tiles it took up and the handles
    /// of the downloads that lost their tile, which the caller aborts.
    pub fn merge_tiles_pls(&mut self) -> (log: MergeLog)
        requires
            old(self).wf(),
        ensures
            final(self).wf(),
            final(self).planet() == old(self).planet(),
            final(self).planet_id() == old(self).planet_id(),
            final(self).next_task() == old(self).next_task(),
            is_selection(
                old(self)@,
                TileFilter::MergeRequested,
                0,
                MAX_RESHAPES_PER_FRAME,
                log.merged@,
            ),
            final(self)@ == run(old(self)@, merge_steps(log.merged@)),
            log.aborted@ == merge_steps_aborts(old(self)@, log.merged@),
    {
        let ids = self.select(TileFilter::MergeRequested, 0, MAX_RESHAPES_PER_FRAME);
        let ghost start = self@;
        let mut aborted: Vec<u64> = Vec::new();
        let mut k: usize = 0;
        proof {
            assert(merge_steps(ids@.take(0)) =~= Seq::<TreeStep>::empty());
            assert(ids@.take(0) =~= Seq::<NodeId>::empty());
        }
        while k < ids.len()
            invariant
                k <= ids@.len(),
                self.wf(),
                self.planet() == old(self).planet(),
                self.planet_id() == old(self).planet_id(),
                self.next_task() == old(self).next_task(),
                self@ == run(start, merge_steps(ids@.take(k as int))),
                aborted@ == merge_steps_aborts(start, ids@.take(k as int)),
            decreases ids@.len() - k,
        {
            let mut handles = self.merge_tile(ids[k]);
            aborted.append(&mut handles);
            proof {
                let step = TreeStep::Merge { tile: ids@[k as int] };
                lemma_run_push(start, merge_steps(ids@.take(k as int)), step);
                assert(merge_steps(ids@.take(k as int)).push(step) =~= merge_steps(
                    ids@.take(k + 1),
                ));
                assert(ids@.take(k + 1).drop_last() =~= ids@.take(k as int));
            }
            k += 1;
        }
        proof {
            assert(ids@.take(ids@.len() as int) =~= ids@);
        }
        MergeLog { merged: ids, aborted }
    }

    /// Looks at the children of the split tiles whose time has come, at
    /// most `MAX_POST_SPLIT_CHECKS_PER_FRAME` of them, lowest ids first, each
    /// with a random jitter; returns the looks it took.
    pub fn check_post_split(&mut self, now: u64) -> (looks: Vec<TreeStep>)
        requires
            old(self).wf(),
        ensures
            final(self).wf(),
            final(self).planet() == old(self).planet(),
            final(self).planet_id() == old(self).planet_id(),
            final(self).next_task() == old(self).next_task(),
            forall|k: int| 0 <= k < looks@.len() ==> is_post_split_look(#[trigger] looks@[k], now),
            is_selection(
                old(self)@,
                TileFilter::PostSplitDue,
                now,
                MAX_POST_SPLIT_CHECKS_PER_FRAME,
                post_split_tiles(looks@),
            ),
            final(self)@ == run(old(self)@, looks@),
    {
        let ids = self.select(TileFilter::PostSplitDue, now, MAX_POST_SPLIT_CHECKS_PER_FRAME);
        let ghost start = self@;
        let mut looks: Vec<TreeStep> = Vec::new();
        let mut k: usize = 0;
        while k < ids.len()
            invariant
                k <= ids@.len(),
                self.wf(),
                self.planet() == old(self).planet(),
                self.planet_id() == old(self).planet_id(),
                self.next_task() == old(self).next_task(),
                looks@.len() == k,
                forall|j: int| 0 <= j < k ==> is_post_split_look(#[trigger] looks@[j], now),
                forall|j: int| 0 <= j < k ==> (#[trigger] looks@[j])->PostSplit_tile == ids@[j],
                self@ == run(start, looks@),
            decreases ids@.len() - k,
        {
            let jitter = random_below(POST_SPLIT_INTERVAL_MS);
            let step = TreeStep::PostSplit { tile: ids[k], now, jitter };
            let ghost before = looks@;
            let _ = self.check_post_split_tile(ids[k], now, jitter);
            looks.push(step);
            proof {
                lemma_run_push(start, before, step);
            }
            k += 1;
        }
        proof {
            assert(post_split_tiles(looks@) =~= ids@);
        }
        looks
    }

    /// Starts the downloads of one frame: of the tiles with geometry that
    /// wait for an image and whose time has come, as many as
    /// `dispatch_count` allows are chosen at random, each once, and handed
    /// out under handles that were never given out before.
    pub fn start_planet_tile_download(&mut self, now: u64) -> (started: Vec<TileDownload>)
        requires
            old(self).wf(),
        ensures
            final(self).wf(),
            final(self).planet() == old(self).planet(),
            final(self).planet_id() == old(self).planet_id(),
            final(self).next_task() == old(self).next_task() + started@.len(),
            started@.len() == dispatch_count(
                count_matching(
                    old(self)@,
                    TileFilter::DownloadRunning,
                    now,
                    old(self)@.len() as int,
                ),
                count_matching(old(self)@, TileFilter::DownloadDue, now, old(self)@.len() as int),
                old(self).next_task(),
            ),
            forall|k: int|
                0 <= k < started@.len() ==> {
                    let d = #[trigger] started@[k];
                    &&& live(old(self)@, d.target as int)
                    &&& filter_matches(TileFilter::DownloadDue, old(self)@[d.target as int]->0, now)
                    &&& d.tile == old(self)@[d.target as int]->0.coord
                    &&& d.pending_info == old(self)@[d.target as int]->0.download->Pending_0
                    &&& d.abort_handle == old(self).next_task() + k
                },
            forall|a: int, b: int|
                0 <= a < b < started@.len() ==> started@[a].target != started@[b].target,
            final(self)@ == run(old(self)@, start_steps(started@)),
    {
        let mut started: Vec<TileDownload> = Vec::new();
        let running = self.count(TileFilter::DownloadRunning, now);
        let due = self.select(TileFilter::DownloadDue, now, usize::MAX);
        let room = if running < MAX_RUNNING_DOWNLOADS {
            MAX_RUNNING_DOWNLOADS - running
        } else {
            0
        };
        let mut budget = if room < MAX_DISPATCH_PER_FRAME {
            room
        } else {
            MAX_DISPATCH_PER_FRAME
        };
        if due.len() < budget {
            budget = due.len();
        }
        let handles = u64::MAX - self.next_task;
        if handles < budget as u64 {
            budget = handles as usize;
        }
        let picks = sample_indices(due.len(), budget);
        let ghost start = self@;
        let ghost first = self.next_task();
        let mut k: usize = 0;
        proof {
            assert(start_steps(started@) =~= Seq::<TreeStep>::empty());
        }
        while k < picks.len()
            invariant
                k <= picks@.len(),
                picks@.len() == budget,
                budget <= u64::MAX - first,
                start == old(self)@,
                first == old(self).next_task(),
                self.wf(),
                self.planet() == old(self).planet(),
                self.planet_id() == old(self).planet_id(),
                self.next_task() == first + k,
                picks@.no_duplicates(),
                forall|j: int| 0 <= j < picks@.len() ==> #[trigger] picks@[j] < due@.len(),
                is_selection(start, TileFilter::DownloadDue, now, usize::MAX, due@),
                started@.len() == k,
                self@.len() == start.len(),
                forall|j: int|
                    0 <= j < k ==> {
                        let d = #[trigger] started@[j];
                        &&& d.target == due@[picks@[j] as int]
                        &&& d.tile == start[d.target as int]->0.coord
                        &&& d.pending_info == start[d.target as int]->0.download->Pending_0
                        &&& d.abort_handle == first + j
                    },
                forall|i: int|
                    0 <= i < start.len() && (forall|j: int|
                        0 <= j < k ==> due@[#[trigger] picks@[j] as int] != i) ==> #[trigger] self@[i]
                        == start[i],
                self@ == run(start, start_steps(started@)),
            decreases picks@.len() - k,
        {
            let tile = due[picks[k]];
            let ghost before = started@;
            proof {
                assert(live(start, due@[picks@[k as int] as int] as int));
                assert forall|j: int| 0 <= j < k implies due@[#[trigger] picks@[j] as int]
                    != tile as int by {
                    let pa = picks@[j] as int;
                    let pb = picks@[k as int] as int;
                    assert(pa != pb);
                    if pa < pb {
                        assert(due@[pa] < due@[pb]);
                    } else {
                        assert(due@[pb] < due@[pa]);
                    }
                }
                assert(self@[tile as int] == start[tile as int]);
            }
            let d = self.start_download(tile);
            match d {
                Some(dl) => {
                    started.push(dl);
                },
                None => {},
            }
            proof {
                let step = TreeStep::Start { tile, handle: (first + k) as u64 };
                lemma_run_push(start, start_steps(before), step);
                assert(start_steps(before).push(step) =~= start_steps(started@));
                assert forall|i: int|
                    0 <= i < start.len() && (forall|j: int|
                        0 <= j < k + 1 ==> due@[#[trigger] picks@[j] as int]
                            != i) implies #[trigger] self@[i] == start[i] by {
                    assert(due@[picks@[k as int] as int] != i);
                    assert forall|j: int| 0 <= j < k implies due@[#[trigger] picks@[j] as int]
                        != i by {}
                }
            }
            k += 1;
        }
        proof {
            assert forall|a: int, b: int| 0 <= a < b < started@.len() implies started@[a].target
                != started@[b].target by {
                let pa = picks@[a] as int;
                let pb = picks@[b] as int;
                assert(pa != pb);
                if pa < pb {
                    assert(due@[pa] < due@[pb]);
                } else {
                    assert(due@[pb] < due@[pa]);
                }
            }
            assert forall|k: int| 0 <= k < started@.len() implies {
                let d = #[trigger] started@[k];
                &&& live(start, d.target as int)
                &&& filter_matches(TileFilter::DownloadDue, start[d.target as int]->0, now)
            } by {
                let pk = picks@[k] as int;
                assert(live(start, due@[pk] as int));
            }
        }
        started
    }

    /// Takes the download results of one frame, the first
    /// `MAX_INSERTS_PER_FRAME` of `results` in order, each as
    /// `insert_downloaded_planet_tile` does with a random jitter; returns
    /// the steps taken.
    pub fn insert_downloaded_planet_tiles(
        &mut self,
        results: &Vec<TileFetchResultData>,
        now: u64,
    ) -> (steps: Vec<TreeStep>)
        requires
            old(self).wf(),
        ensures
            final(self).wf(),
            final(self).planet() == old(self).planet(),
            final(self).planet_id() == old(self).planet_id(),
            final(self).next_task() == old(self).next_task(),
            steps@.len() == if results@.len() < MAX_INSERTS_PER_FRAME {
                results@.len()
            } else {
                MAX_INSERTS_PER_FRAME as nat
            },
            forall|k: int|
                0 <= k < steps@.len() ==> is_result_step(
                    #[trigger] steps@[k],
                    run(old(self)@, steps@.take(k)),
                    old(self).planet(),
                    results@[k],
                    now,
                ),
            final(self)@ == run(old(self)@, steps@),
    {
        let n = if results.len() < MAX_INSERTS_PER_FRAME {
            results.len()
        } else {
            MAX_INSERTS_PER_FRAME
        };
        let ghost start = self@;
        let mut steps: Vec<TreeStep> = Vec::new();
        let mut k: usize = 0;
        while k < n
            invariant
                k <= n <= results@.len(),
                start == old(self)@,
                self.wf(),
                self.planet() == old(self).planet(),
                self.planet_id() == old(self).planet_id(),
                self.next_task() == old(self).next_task(),
                steps@.len() == k,
                forall|j: int|
                    0 <= j < k ==> is_result_step(
                        #[trigger] steps@[j],
                        run(start, steps@.take(j)),
                        self.planet(),
                        results@[j],
                        now,
                    ),
                self@ == run(start, steps@),
            decreases n - k,
        {
            let jitter = random_below(RETRY_JITTER_MS);
            let ghost before = steps@;
            let step = self.insert_downloaded_planet_tile(&results[k], now, jitter);
            steps.push(step);
            proof {
                lemma_run_push(start, before, step);
                assert(steps@.take(k as int) =~= before);
                assert forall|j: int| 0 <= j < k + 1 implies is_result_step(
                    #[trigger] steps@[j],
                    run(start, steps@.take(j)),
                    self.planet(),
                    results@[j],
                    now,
                ) by {
                    if j < k {
                        assert(steps@.take(j) =~= before.take(j));
                        assert(steps@[j] == before[j]);
                    }
                }
            }
            k += 1;
        }
        steps
    }

    /// The planet shows another tile server from now on: every tile with
    /// geometry that has an image or a download in flight goes back to
    /// waiting from scratch, so that no tile keeps imagery of the server
    /// before. Returns how many tiles went back and the handles of the
    /// downloads in flight, which the caller aborts.
    pub fn set_tiles_pending_when_planet_changes(&mut self, tile_type: String) -> (out: PlanetReset)
        requires
            old(self).wf(),
        ensures
            final(self).wf(),
            final(self).planet().tile_type == tile_type,
            final(self).planet().planet_name == old(self).planet().planet_name,
            final(self).planet().root_zoom_level == old(self).planet().root_zoom_level,
            final(self).planet().planet_radius == old(self).planet().planet_radius,
            final(self).planet_id() == old(self).planet_id(),
            final(self).next_task() == old(self).next_task(),
            final(self)@.len() == old(self)@.len(),
            forall|i: int|
                0 <= i < old(self)@.len() ==> #[trigger] final(self)@[i] == reset_slot(
                    old(self)@[i],
                ),
            out.reset == count_matching(
                old(self)@,
                TileFilter::DownloadRunning,
                0,
                old(self)@.len() as int,
            ) + count_matching(
                old(self)@,
                TileFilter::DownloadFinished,
                0,
                old(self)@.len() as int,
            ),
            out.aborted@ == running_handles(old(self)@, old(self)@.len() as int),
            out.aborted@.len() == count_matching(
                old(self)@,
                TileFilter::DownloadRunning,
                0,
                old(self)@.len() as int,
            ),
    {
        self.planet.tile_type = tile_type;
        let ghost start = self@;
        let ghost rz = self.planet().root_zoom_level;
        let n = self.nodes.len();
        let mut reset: usize = 0;
        let mut aborted: Vec<u64> = Vec::new();
        let mut i: usize = 0;
        while i < n
            invariant
                i <= n,
                n == start.len(),
                start == old(self)@,
                self@.len() == n,
                self.planet().tile_type == tile_type,
                self.planet().planet_name == old(self).planet().planet_name,
                self.planet().root_zoom_level == old(self).planet().root_zoom_level,
                self.planet().planet_radius == old(self).planet().planet_radius,
                self.planet_id() == old(self).planet_id(),
                self.next_task() == old(self).next_task(),
                forall|j: int| 0 <= j < i ==> #[trigger] self@[j] == reset_slot(start[j]),
                forall|j: int| i <= j < n ==> #[trigger] self@[j] == start[j],
                reset <= i,
                reset == count_matching(start, TileFilter::DownloadRunning, 0, i as int)
                    + count_matching(start, TileFilter::DownloadFinished, 0, i as int),
                aborted@ == running_handles(start, i as int),
                aborted@.len() == count_matching(start, TileFilter::DownloadRunning, 0, i as int),
            decreases n - i,
        {
            match self.nodes[i] {
                Some(t) => {
                    let spawned = match t.stage {
                        TileStage::SpawnRequested => false,
                        _ => true,
                    };
                    if spawned {
                        match t.download {
                            DownloadState::Started(st) => {
                                aborted.push(st.abort_handle);
                                reset += 1;
                                let mut t = t;
                                t.download = DownloadState::Pending(
                                    DownloadPending { fail_cnt: 0, try_after: 0 },
                                );
                                self.nodes[i] = Some(t);
                            },
                            DownloadState::Finished(_) => {
                                reset += 1;
                                let mut t = t;
                                t.download = DownloadState::Pending(
                                    DownloadPending { fail_cnt: 0, try_after: 0 },
                                );
                                self.nodes[i] = Some(t);
                            },
                            DownloadState::Pending(_) => {},
                        }
                    }
                },
                None => {},
            }
            proof {
                assert(aborted@ =~= running_handles(start, i + 1));
            }
            i += 1;
        }
        proof {
            let nt = self.next_task();
            let pid = self.planet_id();
            assert forall|j: int| 0 <= j < start.len() implies same_shape(
                #[trigger] start[j],
                self@[j],
            ) by {
                assert(node_wf(start, rz, pid, nt, j));
                assert(self@[j] == reset_slot(start[j]));
            }
            assert forall|j: int| 0 <= j < self@.len() implies ((#[trigger] self@[j]) matches Some(
                m,
            ) ==> (m.download matches DownloadState::Started(st) ==> st.abort_handle < nt)) by {
                assert(node_wf(start, rz, pid, nt, j));
                assert(self@[j] == reset_slot(start[j]));
            }
            lemma_same_shape_wf(start, self@, rz, pid, nt, nt);
            lemma_same_shape_roots(start, self@, rz);
        }
        PlanetReset { reset, aborted }
    }
}

} // verus!
