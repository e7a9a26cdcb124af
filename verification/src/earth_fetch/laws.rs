//! What holds of every quadtree that the engine builds.

use crate::earth_fetch::step::{is_leaf, should_split, step_spec, TreeStep};
use crate::earth_fetch::tile::{
    Arena, arena_wf, child_ok, is_child_of, lemma_children_distinct, live, node_wf, NodeId,
    roots_present,
};
use crate::earth_fetch::tree::{PlanetTree};
use crate::geo_trig::{
    lemma_child_wf, lemma_children_partition, lemma_covers_same_level, lemma_covers_transitive,
    lemma_parent_covers_child, lemma_root_tile_injective, lemma_root_tiles_cover, MAX_ZOOM,
    root_tile, TileCoord,
};
use vstd::arithmetic::power2::*;
use vstd::prelude::*;

verus! {

/// Quadtree closure: in a well-formed tree every tile with children has
/// four of them, all different and all in the tree, and each of them points
/// back at the tile as its parent; and every tile with a parent stands in
/// the children list of that parent, which is in the tree.
pub proof fn lemma_quadtree_closure(tree: &PlanetTree, i: NodeId)
    requires
        tree.wf(),
        live(tree@, i as int),
    ensures
        tree@[i as int]->0.children_tiles matches Some(ch) ==> {
            &&& forall|k: int|
                0 <= k < 4 ==> live(tree@, #[trigger] ch[k] as int)
                    && tree@[ch[k] as int]->0.parent_tile == Some(i)
            &&& forall|j: int, k: int| 0 <= j < k < 4 ==> ch[j] != ch[k]
        },
        tree@[i as int]->0.parent_tile matches Some(p) ==> live(tree@, p as int) && is_child_of(
            tree@,
            p as int,
            i as int,
        ),
{
    let rz = tree.planet().root_zoom_level;
    assert(node_wf(tree@, rz, tree.planet_id(), tree.next_task(), i as int));
    if tree@[i as int]->0.children_tiles is Some {
        lemma_children_distinct(tree@, rz, tree.planet_id(), tree.next_task(), i as int);
    }
}

/// No tile stands in the children lists of two tiles.
pub proof fn lemma_one_parent(tree: &PlanetTree, p: NodeId, q: NodeId, c: NodeId)
    requires
        tree.wf(),
        live(tree@, p as int),
        live(tree@, q as int),
        is_child_of(tree@, p as int, c as int),
        is_child_of(tree@, q as int, c as int),
    ensures
        p == q,
{
    let rz = tree.planet().root_zoom_level;
    assert(node_wf(tree@, rz, tree.planet_id(), tree.next_task(), p as int));
    assert(node_wf(tree@, rz, tree.planet_id(), tree.next_task(), q as int));
}

/// Every tile without children is visible, whatever its download state:
/// a tile stands back only for four children it has.
pub proof fn lemma_leaves_are_visible(tree: &PlanetTree, i: NodeId)
    requires
        tree.wf(),
        live(tree@, i as int),
        tree@[i as int]->0.children_tiles is None,
    ensures
        tree@[i as int]->0.visibility is Visible,
{
    let rz = tree.planet().root_zoom_level;
    assert(node_wf(tree@, rz, tree.planet_id(), tree.next_task(), i as int));
}



/// Split beats merge: a tile is not marked for a merge while one of its
/// children is no leaf of the decision loop (because it was marked for a
/// split in the same frame, say), nor while the tile's own coverage asks
/// for a split.
pub proof fn lemma_split_beats_merge(s: Arena, parent: NodeId, max_level: u8, effective: i64)
    requires
        live(s, parent as int),
        s[parent as int]->0.children_tiles matches Some(ch) ==> !is_leaf(s, ch[0]) || !is_leaf(
            s,
            ch[1],
        ) || !is_leaf(s, ch[2]) || !is_leaf(s, ch[3]) || should_split(
            s[parent as int]->0.coord.z,
            max_level,
            effective,
        ),
    ensures
        step_spec(s, TreeStep::RequestMerge { parent, max_level, effective }) == s,
{
}


/// The place of tile `i` among the children of its parent `p`.
proof fn lemma_child_place(s: Arena, root_z: u8, planet: u64, next_task: u64, p: NodeId, i: int) -> (k:
    int)
    requires
        arena_wf(s, root_z, planet, next_task),
        live(s, i),
        s[i]->0.parent_tile == Some(p),
    ensures
        0 <= k < 4,
        live(s, p as int),
        s[p as int]->0.children_tiles is Some,
        s[p as int]->0.children_tiles->0[k] == i,
        s[i]->0.coord == s[p as int]->0.coord.child(k),
        s[p as int]->0.coord.z < MAX_ZOOM,
        s[p as int]->0.coord.wf(),
{
    assert(node_wf(s, root_z, planet, next_task, i));
    assert(node_wf(s, root_z, planet, next_task, p as int));
    let ch = s[p as int]->0.children_tiles->0;
    if ch[0] == i {
        0
    } else if ch[1] == i {
        1
    } else if ch[2] == i {
        2
    } else {
        3
    }
}

/// No tile lies above the root level.
proof fn lemma_level_at_least_root(s: Arena, root_z: u8, planet: u64, next_task: u64, i: int)
    requires
        arena_wf(s, root_z, planet, next_task),
        live(s, i),
    ensures
        s[i]->0.coord.z >= root_z,
    decreases s[i]->0.coord.z,
{
    assert(node_wf(s, root_z, planet, next_task, i));
    match s[i]->0.parent_tile {
        None => {},
        Some(p) => {
            let k = lemma_child_place(s, root_z, planet, next_task, p, i);
            lemma_child_wf(s[p as int]->0.coord, k);
            lemma_level_at_least_root(s, root_z, planet, next_task, p as int);
        },
    }
}

/// No two tiles of the tree have the same coordinate.
proof fn lemma_coord_unique(s: Arena, root_z: u8, planet: u64, next_task: u64, a: int, b: int)
    requires
        root_z < MAX_ZOOM,
        arena_wf(s, root_z, planet, next_task),
        roots_present(s, root_z),
        live(s, a),
        live(s, b),
        s[a]->0.coord == s[b]->0.coord,
    ensures
        a == b,
    decreases s[a]->0.coord.z,
{
    assert(node_wf(s, root_z, planet, next_task, a));
    assert(node_wf(s, root_z, planet, next_task, b));
    lemma_level_at_least_root(s, root_z, planet, next_task, a);
    lemma_level_at_least_root(s, root_z, planet, next_task, b);
    match (s[a]->0.parent_tile, s[b]->0.parent_tile) {
        (None, None) => {
            assert(s[a]->0.coord == root_tile(root_z, a));
            assert(s[b]->0.coord == root_tile(root_z, b));
            lemma_root_tile_injective(root_z, a, b);
        },
        (Some(pa), Some(pb)) => {
            let ka = lemma_child_place(s, root_z, planet, next_task, pa, a);
            let kb = lemma_child_place(s, root_z, planet, next_task, pb, b);
            let ta = s[pa as int]->0.coord;
            let tb = s[pb as int]->0.coord;
            lemma_child_wf(ta, ka);
            lemma_child_wf(tb, kb);
            assert(ta == tb);
            lemma_coord_unique(s, root_z, planet, next_task, pa as int, pb as int);
            assert(ka == kb);
        },
        (None, Some(pb)) => {
            let kb = lemma_child_place(s, root_z, planet, next_task, pb, b);
            lemma_child_wf(s[pb as int]->0.coord, kb);
            lemma_level_at_least_root(s, root_z, planet, next_task, pb as int);
        },
        (Some(pa), None) => {
            let ka = lemma_child_place(s, root_z, planet, next_task, pa, a);
            lemma_child_wf(s[pa as int]->0.coord, ka);
            lemma_level_at_least_root(s, root_z, planet, next_task, pa as int);
        },
    }
}

/// The tile at level `z` that tile `b` lies inside: `b` itself, or a tile
/// above it, which then has children.
proof fn lemma_ancestor_at(s: Arena, root_z: u8, planet: u64, next_task: u64, b: int, z: u8) -> (c:
    int)
    requires
        arena_wf(s, root_z, planet, next_task),
        live(s, b),
        root_z <= z <= s[b]->0.coord.z,
    ensures
        live(s, c),
        s[c]->0.coord.z == z,
        s[c]->0.coord.covers(s[b]->0.coord),
        c != b ==> s[c]->0.children_tiles is Some,
    decreases s[b]->0.coord.z - z,
{
    assert(node_wf(s, root_z, planet, next_task, b));
    if s[b]->0.coord.z == z {
        let t = s[b]->0.coord;
        lemma2_to64();
        assert(pow2(0) == 1);
        assert(t.x as int / 1 == t.x);
        assert(t.y as int / 1 == t.y);
        assert(t.covers(t));
        b
    } else {
        match s[b]->0.parent_tile {
            None => b,
            Some(p) => {
                let k = lemma_child_place(s, root_z, planet, next_task, p, b);
                let tp = s[p as int]->0.coord;
                lemma_child_wf(tp, k);
                lemma_parent_covers_child(tp, k);
                let c = lemma_ancestor_at(s, root_z, planet, next_task, p as int, z);
                lemma_covers_transitive(s[c]->0.coord, tp, s[b]->0.coord);
                c
            },
        }
    }
}

/// The leaves do not overlap: no cell lies inside two tiles of the tree
/// that have no children. With `lemma_leaves_cover`, the leaves cover the
/// sphere exactly.
pub proof fn lemma_leaves_disjoint(tree: &PlanetTree, a: NodeId, b: NodeId, p: TileCoord)
    requires
        tree.wf(),
        live(tree@, a as int),
        live(tree@, b as int),
        tree@[a as int]->0.children_tiles is None,
        tree@[b as int]->0.children_tiles is None,
        tree@[a as int]->0.coord.covers(p),
        tree@[b as int]->0.coord.covers(p),
    ensures
        a == b,
{
    let s = tree@;
    let rz = tree.planet().root_zoom_level;
    let pid = tree.planet_id();
    let nt = tree.next_task();
    let (hi, lo) = if s[a as int]->0.coord.z <= s[b as int]->0.coord.z {
        (a as int, b as int)
    } else {
        (b as int, a as int)
    };
    lemma_level_at_least_root(s, rz, pid, nt, hi);
    let c = lemma_ancestor_at(s, rz, pid, nt, lo, s[hi]->0.coord.z);
    lemma_covers_transitive(s[c]->0.coord, s[lo]->0.coord, p);
    lemma_covers_same_level(s[c]->0.coord, s[hi]->0.coord, p);
    lemma_coord_unique(s, rz, pid, nt, c, hi);
}

/// From a tile that covers the cell `p` of the deepest level, the tree
/// leads down to a tile without children that covers it.
proof fn lemma_descend_to_leaf(
    s: Arena,
    root_z: u8,
    planet: u64,
    next_task: u64,
    i: int,
    p: TileCoord,
) -> (leaf: int)
    requires
        arena_wf(s, root_z, planet, next_task),
        live(s, i),
        s[i]->0.coord.covers(p),
        p.wf(),
        p.z == MAX_ZOOM,
    ensures
        live(s, leaf),
        s[leaf]->0.children_tiles is None,
        s[leaf]->0.coord.covers(p),
    decreases MAX_ZOOM - s[i]->0.coord.z,
{
    assert(node_wf(s, root_z, planet, next_task, i));
    let t = s[i]->0;
    match t.children_tiles {
        None => i,
        Some(ch) => {
            lemma_children_partition(t.coord, p);
            let k = choose|k: int| 0 <= k < 4 && (#[trigger] t.coord.child(k)).covers(p);
            lemma_child_wf(t.coord, k);
            let c = if k == 0 {
                ch[0]
            } else if k == 1 {
                ch[1]
            } else if k == 2 {
                ch[2]
            } else {
                ch[3]
            };
            assert(child_ok(s, i, c, k));
            lemma_descend_to_leaf(s, root_z, planet, next_task, c as int, p)
        },
    }
}

/// The leaves cover the sphere: once the root tiles are requested, every
/// cell `p` of the deepest level lies inside some tile of the tree that has
/// no children. (By `lemma_leaves_are_visible` that tile is visible; it
/// shows its image once it has one.)
pub proof fn lemma_leaves_cover(tree: &PlanetTree, p: TileCoord)
    requires
        tree.wf(),
        tree@.len() > 0,
        p.wf(),
        p.z == MAX_ZOOM,
    ensures
        exists|i: int|
            live(tree@, i) && (#[trigger] tree@[i])->0.children_tiles is None
                && tree@[i]->0.coord.covers(p),
{
    let rz = tree.planet().root_zoom_level;
    lemma_root_tiles_cover(rz, p);
    let k = choose|k: int|
        0 <= k < pow2(rz as nat) * pow2(rz as nat) && (#[trigger] root_tile(rz, k)).covers(p);
    assert(live(tree@, k) && tree@[k]->0.coord == root_tile(rz, k));
    let leaf = lemma_descend_to_leaf(tree@, rz, tree.planet_id(), tree.next_task(), k, p);
    assert(live(tree@, leaf) && tree@[leaf]->0.children_tiles is None
        && tree@[leaf]->0.coord.covers(p));
}

} // verus!
