//! Streaming core of a spherical planet textured from Web-Mercator raster
//! tiles: tile coordinates, the per-planet quadtree of displayed tiles, the
//! download bookkeeping behind it and the SOCKS5 proxy pool it fetches
//! through.

pub mod config;
pub mod download;
pub mod download_geoduck;
pub mod download_geosearch;
pub mod download_tile;
pub mod earth_fetch;
pub mod fetch;
pub mod geo_trig;
pub mod proxy_manager;
pub mod proxy_scrape;
pub mod random;
pub mod stat_counter;
pub mod text;
pub mod web_text;
