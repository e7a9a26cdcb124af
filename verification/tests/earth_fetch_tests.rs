use crooked_earth::earth_fetch::{
    CheckPostSplit, DownloadFinished, DownloadPending, DownloadStarted, DownloadState,
    LeafObservation, PlanetTree, TileFetchResultData, TileFilter, TileStage, TreeStep, Visibility,
    WebMercatorLeaf, WebMercatorTiledPlanet, MAX_DECISIONS_PER_FRAME, MAX_DISPATCH_PER_FRAME,
    MAX_RUNNING_DOWNLOADS,
};
use crooked_earth::geo_trig::TileCoord;

fn planet(root_zoom_level: u8) -> WebMercatorTiledPlanet {
    WebMercatorTiledPlanet {
        planet_name: "earth".to_string(),
        root_zoom_level,
        tile_type: "s".to_string(),
        planet_radius: 6_371_000_000,
    }
}

fn spawned_tree(root_zoom_level: u8) -> PlanetTree {
    let mut tree = PlanetTree::new(7, planet(root_zoom_level));
    let roots = tree.spawn_root_planet_tiles();
    for id in roots {
        assert!(tree.spawn_tile_pls(id, 1_000_000_000));
    }
    tree
}

fn result_for(tree: &PlanetTree, target: usize, image: Option<u64>) -> TileFetchResultData {
    let tile = tree.get(target).unwrap();
    let pending_info = match tile.download {
        DownloadState::Started(s) => s.pending_info,
        DownloadState::Pending(p) => p,
        DownloadState::Finished(_) => DownloadPending { fail_cnt: 0, try_after: 0 },
    };
    TileFetchResultData {
        image,
        target,
        tile: tile.coord,
        planet_name: "earth".to_string(),
        tile_type: tree.tile_type().clone(),
        pending_info,
    }
}

fn effective_ppm(cartesian_diagonal: f64, camera: [f64; 3], tile: [f64; 3], planet: [f64; 3]) -> i64 {
    let sub = |a: [f64; 3], b: [f64; 3]| [a[0] - b[0], a[1] - b[1], a[2] - b[2]];
    let len = |a: [f64; 3]| (a[0] * a[0] + a[1] * a[1] + a[2] * a[2]).sqrt();
    let dot = |a: [f64; 3], b: [f64; 3]| a[0] * b[0] + a[1] * b[1] + a[2] * b[2];
    let coverage = cartesian_diagonal / len(sub(tile, camera));
    let c = sub(camera, planet);
    let t = sub(tile, planet);
    let facing = dot(c, t) / (len(c) * len(t));
    (coverage * facing * 1e6) as i64
}

#[test]
fn root_level_spawn() {
    let mut tree = PlanetTree::new(7, planet(1));
    assert_eq!(tree.len(), 0);
    let roots = tree.spawn_root_planet_tiles();
    assert_eq!(roots, vec![0, 1, 2, 3]);
    let requests = tree.pending_spawn_requests();
    let mut coords: Vec<(u64, u64, u8)> =
        requests.iter().map(|r| (r.coord.x, r.coord.y, r.coord.z)).collect();
    coords.sort();
    assert_eq!(coords, vec![(0, 0, 1), (0, 1, 1), (1, 0, 1), (1, 1, 1)]);
    assert!(requests.iter().all(|r| r.is_root));
    for r in requests.iter() {
        assert!(tree.spawn_tile_pls(r.target, 5));
    }
    for id in 0..4 {
        let tile = tree.get(id).unwrap();
        assert_eq!(
            tile.download,
            DownloadState::Pending(DownloadPending { fail_cnt: 0, try_after: 0 })
        );
        assert_eq!(tile.stage, TileStage::Leaf(WebMercatorLeaf { check_after: 0 }));
        assert_eq!(tile.visibility, Visibility::Visible);
        assert_eq!(tile.parent_tile, None);
        assert_eq!(tile.parent_planet, 7);
        assert_eq!(tile.cartesian_diagonal, 5);
    }
    let started = tree.start_planet_tile_download(1);
    assert_eq!(started.len(), 4);
    for d in started.iter() {
        let msg = result_for(&tree, d.target, Some(100 + d.target as u64));
        assert_eq!(tree.insert_downloaded_planet_tile(&msg, 10, 0), TreeStep::Finished {
            tile: d.target
        });
    }
    for id in 0..4 {
        assert_eq!(tree.get(id).unwrap().download, DownloadState::Finished(DownloadFinished));
    }
}

#[test]
fn root_tiles_are_requested_once() {
    let mut tree = PlanetTree::new(7, planet(1));
    assert_eq!(tree.spawn_root_planet_tiles().len(), 4);
    assert_eq!(tree.spawn_root_planet_tiles().len(), 0);
    assert_eq!(tree.len(), 4);
}

#[test]
fn spawn_of_what_is_no_request_does_nothing() {
    let mut tree = spawned_tree(1);
    let before = tree.get(0);
    assert!(!tree.spawn_tile_pls(0, 9));
    assert!(!tree.spawn_tile_pls(99, 9));
    assert_eq!(tree.get(0), before);
}

#[test]
fn split_under_camera_approach() {
    let mut tree = spawned_tree(1);
    let effective = effective_ppm(1e6, [0.5e6, 0.0, 0.0], [1.0e6, 0.0, 0.0], [0.0, 0.0, 0.0]);
    assert_eq!(effective, 2_000_000);
    let obs = vec![LeafObservation { leaf: 0, effective, parent_effective: 0 }];
    let log = tree.check_merge_or_split(5, 19, &obs);
    assert_eq!(log.decided.len(), 1);
    assert!(log.merges.is_empty());
    assert_eq!(tree.get(0).unwrap().stage, TileStage::SplitRequested);
    assert_eq!(tree.split_tiles_pls(), vec![0]);
    let parent = tree.get(0).unwrap();
    assert_eq!(parent.children_tiles, Some([4, 5, 6, 7]));
    assert_eq!(parent.stage, TileStage::Interior(Some(CheckPostSplit { next_check_at: 0 })));
    assert_eq!(parent.visibility, Visibility::Visible);
    let expected = [(0, 0), (1, 0), (0, 1), (1, 1)];
    for k in 0..4 {
        let child = tree.get(4 + k).unwrap();
        assert_eq!(child.coord, TileCoord { x: expected[k].0, y: expected[k].1, z: 2 });
        assert_eq!(child.parent_tile, Some(0));
        assert_eq!(child.stage, TileStage::SpawnRequested);
    }
    let requests = tree.pending_spawn_requests();
    assert_eq!(requests.len(), 4);
    for r in requests.iter() {
        assert!(!r.is_root);
        assert!(tree.spawn_tile_pls(r.target, 3));
    }
    for k in 0..4 {
        let child = tree.get(4 + k).unwrap();
        assert_eq!(
            child.download,
            DownloadState::Pending(DownloadPending { fail_cnt: 0, try_after: 0 })
        );
        assert_eq!(child.stage, TileStage::Leaf(WebMercatorLeaf { check_after: 0 }));
    }
}

fn split_first_root(tree: &mut PlanetTree) {
    assert_eq!(tree.decide_leaf(0, 5, 19, 2_000_000, 0), None);
    assert_eq!(tree.split_tile(0), Some([4, 5, 6, 7]));
    for id in 4..8 {
        assert!(tree.spawn_tile_pls(id, 3));
    }
}

#[test]
fn merge_when_receding() {
    let mut tree = spawned_tree(1);
    split_first_root(&mut tree);
    let started = tree.start_planet_tile_download(1);
    assert_eq!(started.len(), 8);
    let child_handles: Vec<u64> =
        (4..8).map(|id| started.iter().find(|d| d.target == id).unwrap().abort_handle).collect();
    let obs: Vec<LeafObservation> = (4..8)
        .map(|leaf| LeafObservation { leaf, effective: 50_000, parent_effective: 50_000 })
        .collect();
    let log = tree.check_merge_or_split(10, 19, &obs);
    assert_eq!(log.decided.len(), 4);
    assert_eq!(log.merges.len(), 4);
    assert_eq!(log.merges[0], TreeStep::RequestMerge { parent: 0, max_level: 19, effective: 50_000 });
    assert_eq!(tree.get(0).unwrap().stage, TileStage::MergeRequested);
    for id in 4..8 {
        assert_eq!(tree.get(id).unwrap().stage, TileStage::Retiring);
    }
    let parent_download = tree.get(0).unwrap().download;
    let log = tree.merge_tiles_pls();
    assert_eq!(log.merged, vec![0]);
    assert_eq!(log.aborted, child_handles);
    let parent = tree.get(0).unwrap();
    assert_eq!(parent.children_tiles, None);
    assert_eq!(parent.stage, TileStage::Leaf(WebMercatorLeaf { check_after: 0 }));
    assert_eq!(parent.visibility, Visibility::Visible);
    assert_eq!(parent.download, parent_download);
    for id in 4..8 {
        assert_eq!(tree.get(id), None);
    }
    assert_eq!(tree.len(), 8);
}

#[test]
fn split_wins_over_merge() {
    let mut tree = spawned_tree(1);
    split_first_root(&mut tree);
    let obs = vec![
        LeafObservation { leaf: 4, effective: 50_000, parent_effective: 50_000 },
        LeafObservation { leaf: 5, effective: 400_000, parent_effective: 50_000 },
    ];
    let log = tree.check_merge_or_split(10, 19, &obs);
    assert_eq!(log.merges.len(), 1);
    assert_eq!(tree.get(5).unwrap().stage, TileStage::SplitRequested);
    assert!(matches!(tree.get(0).unwrap().stage, TileStage::Interior(_)));
    assert_eq!(tree.get(4).unwrap().stage, TileStage::Leaf(WebMercatorLeaf { check_after: 0 }));
}

#[test]
fn parent_that_wants_split_is_not_merged() {
    let mut tree = spawned_tree(1);
    split_first_root(&mut tree);
    assert!(!tree.request_merge(0, 19, 300_001));
    assert!(matches!(tree.get(0).unwrap().stage, TileStage::Interior(_)));
    assert!(tree.request_merge(0, 19, 300_000));
    assert_eq!(tree.get(0).unwrap().stage, TileStage::MergeRequested);
    assert!(!tree.request_merge(0, 19, 0));
}

#[test]
fn decision_thresholds_are_exact() {
    let mut tree = spawned_tree(1);
    split_first_root(&mut tree);
    let leaf = tree.get(4).unwrap();
    assert_eq!(PlanetTree::decide_split_or_merge(&leaf, 19, 300_000), (false, false));
    assert_eq!(PlanetTree::decide_split_or_merge(&leaf, 19, 300_001), (true, false));
    assert_eq!(PlanetTree::decide_split_or_merge(&leaf, 2, 300_001), (false, false));
    assert_eq!(PlanetTree::decide_split_or_merge(&leaf, 19, 75_000), (false, false));
    assert_eq!(PlanetTree::decide_split_or_merge(&leaf, 19, 74_999), (false, true));
    assert_eq!(PlanetTree::decide_split_or_merge(&leaf, 1, 200_000), (false, true));
    assert_eq!(PlanetTree::decide_split_or_merge(&leaf, 19, -5), (false, true));
    let root = tree.get(1).unwrap();
    assert_eq!(PlanetTree::decide_split_or_merge(&root, 19, 0), (false, false));
    assert_eq!(PlanetTree::decide_split_or_merge(&root, 0, 0), (false, false));
}

#[test]
fn leaf_that_neither_splits_nor_merges_is_put_off() {
    let mut tree = spawned_tree(1);
    assert_eq!(tree.decide_leaf(1, 5_000, 19, 100_000, 42), None);
    assert_eq!(
        tree.get(1).unwrap().stage,
        TileStage::Leaf(WebMercatorLeaf { check_after: 5_000 + 1_000 + 42 })
    );
    assert_eq!(tree.decide_leaf(1, 5_500, 19, 2_000_000, 0), None);
    assert_eq!(
        tree.get(1).unwrap().stage,
        TileStage::Leaf(WebMercatorLeaf { check_after: 6_042 })
    );
    assert_eq!(tree.decide_leaf(1, 6_042, 19, 2_000_000, 0), None);
    assert_eq!(tree.get(1).unwrap().stage, TileStage::SplitRequested);
}

#[test]
fn check_time_saturates() {
    let mut tree = spawned_tree(1);
    assert_eq!(tree.decide_leaf(1, u64::MAX - 10, 19, 100_000, 42), None);
    assert_eq!(
        tree.get(1).unwrap().stage,
        TileStage::Leaf(WebMercatorLeaf { check_after: u64::MAX })
    );
}

#[test]
fn batch_decisions_put_leaves_off_within_the_jitter() {
    let mut tree = spawned_tree(1);
    let obs: Vec<LeafObservation> = (0..4)
        .map(|leaf| LeafObservation { leaf, effective: 100_000, parent_effective: 0 })
        .collect();
    let log = tree.check_merge_or_split(7_000, 19, &obs);
    assert_eq!(log.decided.len(), 4);
    for id in 0..4 {
        match tree.get(id).unwrap().stage {
            TileStage::Leaf(leaf) => {
                assert!(leaf.check_after >= 8_000 && leaf.check_after < 8_100);
            }
            other => panic!("unexpected stage {:?}", other),
        }
    }
    assert_eq!(tree.leaves_to_check(7_999).len(), 0);
    assert_eq!(tree.leaves_to_check(8_100).len(), 4);
}

#[test]
fn leaves_to_check_are_due_distinct_and_bounded() {
    let mut tree = spawned_tree(4);
    assert_eq!(tree.len(), 256);
    let picked = tree.leaves_to_check(0);
    assert_eq!(picked.len(), MAX_DECISIONS_PER_FRAME);
    let mut seen = picked.clone();
    seen.sort();
    seen.dedup();
    assert_eq!(seen.len(), MAX_DECISIONS_PER_FRAME);
    assert!(picked.iter().all(|id| *id < 256));
    let obs: Vec<LeafObservation> = (0..256)
        .map(|leaf| LeafObservation { leaf, effective: 100_000, parent_effective: 0 })
        .collect();
    let log = tree.check_merge_or_split(0, 19, &obs);
    assert_eq!(log.decided.len(), MAX_DECISIONS_PER_FRAME);
    assert_eq!(tree.count(TileFilter::LeafDue, 0), 128);
}

#[test]
fn post_split_flip_waits_for_all_children() {
    let mut tree = spawned_tree(1);
    split_first_root(&mut tree);
    assert!(!tree.check_post_split_tile(0, 100, 7));
    assert_eq!(
        tree.get(0).unwrap().stage,
        TileStage::Interior(Some(CheckPostSplit { next_check_at: 100 + 100 + 7 }))
    );
    for id in 4..8 {
        let msg = result_for(&tree, id, Some(1));
        tree.insert_downloaded_planet_tile(&msg, 150, 0);
    }
    assert!(!tree.check_post_split_tile(0, 206, 0));
    assert_eq!(tree.get(0).unwrap().visibility, Visibility::Visible);
    assert!(tree.check_post_split_tile(0, 207, 0));
    let parent = tree.get(0).unwrap();
    assert_eq!(parent.visibility, Visibility::Replaced);
    assert_eq!(parent.stage, TileStage::Interior(None));
    for id in 4..8 {
        assert_eq!(tree.get(id).unwrap().visibility, Visibility::Visible);
    }
    assert!(!tree.check_post_split_tile(0, 1_000, 0));
}

#[test]
fn post_split_batch_looks_at_due_parents() {
    let mut tree = spawned_tree(1);
    split_first_root(&mut tree);
    let looks = tree.check_post_split(50);
    assert_eq!(looks.len(), 1);
    match looks[0] {
        TreeStep::PostSplit { tile, now, jitter } => {
            assert_eq!(tile, 0);
            assert_eq!(now, 50);
            assert!(jitter < 100);
        }
        other => panic!("unexpected step {:?}", other),
    }
    assert!(tree.check_post_split(60).is_empty());
}

#[test]
fn failed_download_backs_off_exponentially() {
    let mut tree = spawned_tree(1);
    let started = tree.start_planet_tile_download(1);
    let d = started.iter().find(|d| d.target == 2).unwrap();
    assert_eq!(d.pending_info, DownloadPending { fail_cnt: 0, try_after: 0 });
    let msg = result_for(&tree, 2, None);
    assert_eq!(
        tree.insert_downloaded_planet_tile(&msg, 10_000, 5),
        TreeStep::Failed { tile: 2, fail_cnt: 0, now: 10_000, jitter: 5 }
    );
    assert_eq!(
        tree.get(2).unwrap().download,
        DownloadState::Pending(DownloadPending { fail_cnt: 1, try_after: 10_000 + 100 + 5 + 1_000 })
    );
    let mut msg = result_for(&tree, 2, None);
    msg.pending_info = DownloadPending { fail_cnt: 3, try_after: 0 };
    tree.insert_downloaded_planet_tile(&msg, 20_000, 999);
    assert_eq!(
        tree.get(2).unwrap().download,
        DownloadState::Pending(DownloadPending { fail_cnt: 4, try_after: 20_000 + 100 + 999 + 8_000 })
    );
    msg.pending_info = DownloadPending { fail_cnt: 255, try_after: 0 };
    tree.insert_downloaded_planet_tile(&msg, 20_000, 0);
    assert_eq!(
        tree.get(2).unwrap().download,
        DownloadState::Pending(DownloadPending { fail_cnt: 255, try_after: u64::MAX })
    );
}

#[test]
fn failed_tile_is_not_started_before_its_time() {
    let mut tree = spawned_tree(0);
    assert_eq!(tree.start_planet_tile_download(1).len(), 1);
    let msg = result_for(&tree, 0, None);
    tree.insert_downloaded_planet_tile(&msg, 1_000, 0);
    assert_eq!(tree.start_planet_tile_download(2_100).len(), 0);
    let again = tree.start_planet_tile_download(2_101);
    assert_eq!(again.len(), 1);
    assert_eq!(again[0].pending_info, DownloadPending { fail_cnt: 1, try_after: 2_100 });
    assert_eq!(again[0].abort_handle, 1);
}

#[test]
fn stale_results_are_dropped() {
    let mut tree = spawned_tree(1);
    tree.start_planet_tile_download(1);
    let before = tree.get(1);
    let mut msg = result_for(&tree, 1, Some(1));
    msg.tile_type = "other".to_string();
    assert_eq!(tree.insert_downloaded_planet_tile(&msg, 10, 0), TreeStep::Discard { tile: 1 });
    let mut msg = result_for(&tree, 1, Some(1));
    msg.tile = TileCoord { x: 9, y: 9, z: 9 };
    assert_eq!(tree.insert_downloaded_planet_tile(&msg, 10, 0), TreeStep::Discard { tile: 1 });
    let mut msg = result_for(&tree, 1, Some(1));
    msg.planet_name = "moon".to_string();
    assert_eq!(tree.insert_downloaded_planet_tile(&msg, 10, 0), TreeStep::Discard { tile: 1 });
    let mut msg = result_for(&tree, 1, Some(1));
    msg.target = 77;
    assert_eq!(tree.insert_downloaded_planet_tile(&msg, 10, 0), TreeStep::Discard { tile: 77 });
    assert_eq!(tree.get(1), before);
}

#[test]
fn result_for_a_merged_away_tile_is_dropped() {
    let mut tree = spawned_tree(1);
    split_first_root(&mut tree);
    tree.start_planet_tile_download(1);
    let msg = result_for(&tree, 5, Some(1));
    assert!(tree.request_merge(0, 19, 0));
    assert_eq!(tree.merge_tile(0).len(), 4);
    assert_eq!(tree.insert_downloaded_planet_tile(&msg, 10, 0), TreeStep::Discard { tile: 5 });
    assert_eq!(tree.get(5), None);
}

#[test]
fn batch_of_results_reports_each_step() {
    let mut tree = spawned_tree(1);
    tree.start_planet_tile_download(1);
    let mut results = vec![
        result_for(&tree, 0, Some(1)),
        result_for(&tree, 1, None),
        result_for(&tree, 2, Some(1)),
    ];
    results[2].target = 9;
    let steps = tree.insert_downloaded_planet_tiles(&results, 500);
    assert_eq!(steps.len(), 3);
    assert_eq!(steps[0], TreeStep::Finished { tile: 0 });
    match steps[1] {
        TreeStep::Failed { tile, fail_cnt, now, jitter } => {
            assert_eq!((tile, fail_cnt, now), (1, 0, 500));
            assert!(jitter < 1_000);
        }
        other => panic!("unexpected step {:?}", other),
    }
    assert_eq!(steps[2], TreeStep::Discard { tile: 9 });
    assert_eq!(tree.get(0).unwrap().download, DownloadState::Finished(DownloadFinished));
}

#[test]
fn dispatch_is_capped_per_frame_and_in_flight() {
    let mut tree = spawned_tree(4);
    let mut total = 0;
    let mut handles = Vec::new();
    for frame in 0..13 {
        let started = tree.start_planet_tile_download(1 + frame);
        assert_eq!(started.len(), MAX_DISPATCH_PER_FRAME);
        total += started.len();
        handles.extend(started.iter().map(|d| d.abort_handle));
    }
    assert_eq!(total, 208);
    let started = tree.start_planet_tile_download(100);
    assert_eq!(started.len(), 13);
    handles.extend(started.iter().map(|d| d.abort_handle));
    assert_eq!(tree.count(TileFilter::DownloadRunning, 100), MAX_RUNNING_DOWNLOADS);
    assert_eq!(tree.start_planet_tile_download(101).len(), 0);
    let expected: Vec<u64> = (0..221).collect();
    assert_eq!(handles, expected);
    let running = tree.select(TileFilter::DownloadRunning, 0, usize::MAX);
    assert_eq!(running.len(), 221);
}

#[test]
fn started_tile_keeps_its_pending_record() {
    let mut tree = spawned_tree(0);
    let started = tree.start_planet_tile_download(1);
    assert_eq!(started.len(), 1);
    assert_eq!(started[0].target, 0);
    assert_eq!(started[0].tile, TileCoord { x: 0, y: 0, z: 0 });
    assert_eq!(
        tree.get(0).unwrap().download,
        DownloadState::Started(DownloadStarted {
            abort_handle: 0,
            pending_info: DownloadPending { fail_cnt: 0, try_after: 0 },
        })
    );
}

#[test]
fn planet_reconfig() {
    let mut tree = spawned_tree(2);
    assert_eq!(tree.len(), 16);
    let started = tree.start_planet_tile_download(1);
    assert_eq!(started.len(), 16);
    for id in 0..10 {
        let msg = result_for(&tree, id, Some(1));
        tree.insert_downloaded_planet_tile(&msg, 5, 0);
    }
    for id in 13..16 {
        let msg = result_for(&tree, id, None);
        tree.insert_downloaded_planet_tile(&msg, 5, 0);
    }
    assert_eq!(tree.count(TileFilter::DownloadFinished, 5), 10);
    assert_eq!(tree.count(TileFilter::DownloadRunning, 5), 3);
    let expected_aborts: Vec<u64> = (10..13)
        .map(|id| started.iter().find(|d| d.target == id).unwrap().abort_handle)
        .collect();
    let failed_before = tree.get(14).unwrap().download;
    let out = tree.set_tiles_pending_when_planet_changes("t".to_string());
    assert_eq!(out.reset, 13);
    assert_eq!(out.aborted.len(), 3);
    assert_eq!(out.diagnostic_line(), "reset=13, aborted=3");
    assert_eq!(out.aborted, expected_aborts);
    assert_eq!(tree.tile_type(), "t");
    for id in 0..13 {
        assert_eq!(
            tree.get(id).unwrap().download,
            DownloadState::Pending(DownloadPending { fail_cnt: 0, try_after: 0 })
        );
    }
    assert_eq!(tree.get(14).unwrap().download, failed_before);
    assert_eq!(tree.count(TileFilter::DownloadFinished, 5), 0);
    assert_eq!(tree.count(TileFilter::DownloadRunning, 5), 0);
    let stale = TileFetchResultData {
        image: Some(1),
        target: 10,
        tile: tree.get(10).unwrap().coord,
        planet_name: "earth".to_string(),
        tile_type: "s".to_string(),
        pending_info: DownloadPending { fail_cnt: 0, try_after: 0 },
    };
    assert_eq!(tree.insert_downloaded_planet_tile(&stale, 6, 0), TreeStep::Discard { tile: 10 });
}

#[test]
fn quadtree_closure_after_many_frames() {
    let mut tree = spawned_tree(1);
    let mut now = 10;
    for round in 0..6u64 {
        let leaves = tree.leaves_to_check(now);
        let obs: Vec<LeafObservation> = leaves
            .iter()
            .map(|leaf| LeafObservation {
                leaf: *leaf,
                effective: if (*leaf as u64 + round) % 3 == 0 { 900_000 } else { 10_000 },
                parent_effective: 10_000,
            })
            .collect();
        tree.check_merge_or_split(now, 6, &obs);
        tree.split_tiles_pls();
        tree.merge_tiles_pls();
        for r in tree.pending_spawn_requests() {
            tree.spawn_tile_pls(r.target, 1);
        }
        tree.check_post_split(now);
        now += 2_000;
        for id in 0..tree.len() {
            if let Some(tile) = tree.get(id) {
                match tile.children_tiles {
                    Some(kids) => {
                        for k in 0..4 {
                            let child = tree.get(kids[k]).unwrap();
                            assert_eq!(child.parent_tile, Some(id));
                            assert_eq!(child.coord.z, tile.coord.z + 1);
                            assert_eq!(child.coord.x, 2 * tile.coord.x + (k as u64 % 2));
                            assert_eq!(child.coord.y, 2 * tile.coord.y + (k as u64 / 2));
                        }
                    }
                    None => assert_eq!(tile.visibility, Visibility::Visible),
                }
                if let Some(p) = tile.parent_tile {
                    let parent = tree.get(p).unwrap();
                    assert!(parent.children_tiles.unwrap().contains(&id));
                }
            }
        }
    }
    assert!(tree.len() > 4);
}

#[test]
fn tiles_at_the_deepest_server_level_do_not_split() {
    let mut tree = spawned_tree(1);
    assert_eq!(tree.decide_leaf(0, 5, 1, 2_000_000, 3), None);
    assert_eq!(tree.get(0).unwrap().stage, TileStage::Leaf(WebMercatorLeaf { check_after: 1_008 }));
    assert_eq!(tree.split_tile(0), None);
}
