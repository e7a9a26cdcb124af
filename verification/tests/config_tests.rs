use crooked_earth::config::{
    check_config, get_all_socks5_scrapers, get_all_tile_servers, get_tile_server, push_path,
    tmpdir, ConfigError, LinksConfig, Socks5ProxyScraperConfig, TileServerConfig,
};
use crooked_earth::download_tile::ImgFormat;
use crooked_earth::geo_trig::TileCoord;

fn server(name: &str) -> TileServerConfig {
    TileServerConfig {
        name: name.to_string(),
        comment: String::new(),
        url: "https://{s}.tile.example/{z}/{x}/{y}.png".to_string(),
        width: 256,
        height: 256,
        max_level: 19,
        img_type: "png".to_string(),
        map_type: "street".to_string(),
        servers: Some(vec!["a".to_string(), "b".to_string()]),
        planet: "earth".to_string(),
    }
}

fn scraper(name: &str) -> Socks5ProxyScraperConfig {
    Socks5ProxyScraperConfig {
        name: name.to_string(),
        url: "https://list.example/".to_string(),
        extract_method: "text".to_string(),
    }
}

fn config() -> LinksConfig {
    LinksConfig {
        db_location: "./db".to_string(),
        tile_location: "./tiles".to_string(),
        user_agents: vec!["agent".to_string()],
        tor_addr_list: vec!["127.0.0.1:9050".to_string()],
        proxy_fetch_parallel: 4,
        timeout_secs: 10,
        retries: 3,
        curl_path: "curl".to_string(),
        curl_impersonate_path: "curl-impersonate".to_string(),
        tile_servers: vec![server("osm"), server("sat")],
        socks5_scrape_servers: vec![scraper("one"), scraper("two")],
        geo_search_url: "https://search.example/?q={q_urlencoded}".to_string(),
        topography_servers: Vec::new(),
    }
}

#[test]
fn good_configuration_passes() {
    assert_eq!(check_config(&config()), Ok(()));
}

#[test]
fn each_fault_of_a_configuration_is_named() {
    let mut c = config();
    c.tile_servers.clear();
    assert_eq!(check_config(&c), Err(ConfigError::NoTileServers));
    let mut c = config();
    c.user_agents.clear();
    assert_eq!(check_config(&c), Err(ConfigError::NoUserAgents));
    let mut c = config();
    c.tor_addr_list.clear();
    assert_eq!(check_config(&c), Err(ConfigError::NoTorAddr));
    let mut c = config();
    c.tile_servers.push(server("osm"));
    assert_eq!(check_config(&c), Err(ConfigError::DuplicateTileServer));
    let mut c = config();
    c.socks5_scrape_servers.push(scraper("two"));
    assert_eq!(check_config(&c), Err(ConfigError::DuplicateScraper));
    let mut c = config();
    c.tile_servers[1].servers = Some(Vec::new());
    assert_eq!(check_config(&c), Err(ConfigError::EmptyServerShards));
    let mut c = config();
    c.tile_servers[1].servers = None;
    assert_eq!(check_config(&c), Ok(()));
}

#[test]
fn first_fault_counts() {
    let mut c = config();
    c.user_agents.clear();
    c.tile_servers.push(server("osm"));
    assert_eq!(check_config(&c), Err(ConfigError::NoUserAgents));
}

#[test]
fn tile_server_is_found_by_name() {
    let c = config();
    assert_eq!(get_tile_server(&c.tile_servers, "sat").unwrap().name, "sat");
    assert!(get_tile_server(&c.tile_servers, "moon").is_none());
    assert_eq!(get_all_tile_servers(&c).len(), 2);
    assert_eq!(get_all_socks5_scrapers(&c).len(), 2);
    assert_eq!(get_all_socks5_scrapers(&c)[1].name, "two");
}

#[test]
fn temporary_files_live_below_the_tile_location() {
    assert_eq!(tmpdir(&config()), "./tiles/tmp");
    let mut c = config();
    c.tile_location = "/var/tiles/".to_string();
    assert_eq!(tmpdir(&c), "/var/tiles/tmp");
    c.tile_location = String::new();
    assert_eq!(tmpdir(&c), "tmp");
}

#[test]
fn paths_are_joined_like_paths() {
    let join = |dir: &str, name: &str| {
        let mut path = dir.to_string();
        push_path(&mut path, name);
        path
    };
    assert_eq!(join("a", "b"), "a/b");
    assert_eq!(join("a/", "b"), "a/b");
    assert_eq!(join("", "b"), "b");
    assert_eq!(join("a", "/b"), "/b");
    assert_eq!(join("a", ""), "a/");
    for (dir, name) in [("a", "b"), ("a/", "b"), ("", "b"), ("a", "/b"), ("a", ""), ("/", "x")] {
        let expected = std::path::PathBuf::from(dir).join(name);
        assert_eq!(join(dir, name), expected.to_str().unwrap());
    }
}

#[test]
fn local_tile_url_names_server_level_column_and_row() {
    assert_eq!(
        server("osm").get_tile_url(TileCoord { x: 1, y: 0, z: 1 }),
        "http://localhost:8000/api/tile/osm/1/1/0/tile.png"
    );
    assert_eq!(
        server("sat").get_tile_url(TileCoord { x: 135470, y: 87999, z: 18 }),
        "http://localhost:8000/api/tile/sat/18/135470/87999/tile.png"
    );
}

#[test]
fn image_type_names_the_format() {
    let mut s = server("osm");
    assert_eq!(s.img_type(), Some(ImgFormat::Png));
    s.img_type = "jpg".to_string();
    assert_eq!(s.img_type(), Some(ImgFormat::Jpeg));
    s.img_type = "gif".to_string();
    assert_eq!(s.img_type(), None);
}
