//! The planet quadtree engine: one tree of tiles per planet, whose leaves
//! are the tiles on display. Each frame the engine decides which leaves to
//! split or merge, materialises those decisions, hands downloads out and
//! takes their results back. The renderer, the camera arithmetic and the
//! network stay outside: they are given node ids, tile coordinates and task
//! handles, and give back coverage estimates and download outcomes.

pub mod laws;
pub mod step;
pub mod tile;
pub mod tree;

pub use self::step::{
    CHECK_INTERVAL_MS, CHECK_JITTER_MS, DecisionLog, LeafObservation, MAX_DECISIONS_PER_FRAME,
    MAX_DISPATCH_PER_FRAME, MAX_INSERTS_PER_FRAME, MAX_POST_SPLIT_CHECKS_PER_FRAME,
    MAX_RESHAPES_PER_FRAME, MAX_RUNNING_DOWNLOADS, MAX_SPAWNS_PER_FRAME, MergeLog, PlanetReset,
    POST_SPLIT_INTERVAL_MS, RETRY_BASE_MS, RETRY_JITTER_MS, SPLIT_THRESHOLD, TileDownload,
    TileFetchResultData, TreeStep,
};
pub use self::tile::{
    Arena, CheckPostSplit, DownloadFinished, DownloadPending, DownloadStarted, DownloadState,
    NodeId, SpawnTilePls, TileFilter, TileStage, Visibility, WebMercatorLeaf, WebMercatorTile,
    WebMercatorTiledPlanet,
};
pub use self::tree::PlanetTree;
