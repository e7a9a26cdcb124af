//! What the streaming core is configured with: tile servers, proxy
//! scrapers, and where things are kept.

use crate::download_tile::ImgFormat;
use crate::geo_trig::TileCoord;
use crate::text::{decimal, push_decimal};
use vstd::prelude::*;
use vstd::string::*;

verus! {

/// A tile server: where its tiles come from and what they look like.
#[derive(Clone, Debug)]
pub struct TileServerConfig {
    pub name: String,
    pub comment: String,
    /// URL template with `{s}`, `{x}`, `{y}`, `{z}` and `{bing_quadkey}`.
    pub url: String,
    pub width: u32,
    pub height: u32,
    pub max_level: u8,
    /// `png` or `jpg`.
    pub img_type: String,
    pub map_type: String,
    /// The shards that `{s}` is drawn from, if the server has any.
    pub servers: Option<Vec<String>>,
    pub planet: String,
}

/// A source of proxy addresses.
#[derive(Clone, Debug)]
pub struct Socks5ProxyScraperConfig {
    pub name: String,
    pub url: String,
    pub extract_method: String,
}

/// A server of elevation tiles.
#[derive(Clone, Debug)]
pub struct TopographyServerConfig {
    pub name: String,
    pub comment: String,
    pub url: String,
    pub download_zoomlevel: u32,
    pub scale_zoomlevel: u32,
}

/// The configuration of the downloader.
#[derive(Clone, Debug)]
pub struct LinksConfig {
    pub db_location: String,
    pub tile_location: String,
    pub user_agents: Vec<String>,
    pub tor_addr_list: Vec<String>,
    pub proxy_fetch_parallel: u8,
    pub timeout_secs: u64,
    pub retries: u8,
    pub curl_path: String,
    pub curl_impersonate_path: String,
    pub tile_servers: Vec<TileServerConfig>,
    pub socks5_scrape_servers: Vec<Socks5ProxyScraperConfig>,
    pub geo_search_url: String,
    pub topography_servers: Vec<TopographyServerConfig>,
}

/// What is wrong with a configuration.
#[derive(Clone, Copy, Debug, PartialEq, Eq, Structural)]
pub enum ConfigError {
    NoTileServers,
    NoUserAgents,
    NoTorAddr,
    DuplicateTileServer,
    DuplicateScraper,
    EmptyServerShards,
}

/// `dir` with `name` below it: `name` itself where `dir` is empty or
/// `name` starts at the root, else `dir`, a slash unless `dir` ends in one,
/// and `name`.
pub open spec fn joined(dir: Seq<char>, name: Seq<char>) -> Seq<char> {
    if dir.len() == 0 || (name.len() > 0 && name[0] == '/') {
        name
    } else if dir.last() == '/' {
        dir + name
    } else {
        dir + seq!['/'] + name
    }
}

/// The names of a list of tile servers.
pub open spec fn server_names(v: Seq<TileServerConfig>) -> Seq<Seq<char>> {
    Seq::new(v.len(), |i: int| v[i].name@)
}

/// The names of a list of scrapers.
pub open spec fn scraper_names(v: Seq<Socks5ProxyScraperConfig>) -> Seq<Seq<char>> {
    Seq::new(v.len(), |i: int| v[i].name@)
}

/// Some tile server has a list of shards with nothing in it.
pub open spec fn has_empty_shards(v: Seq<TileServerConfig>) -> bool {
    exists|i: int| 0 <= i < v.len() && shards_empty(#[trigger] v[i])
}

/// The tile server lists shards, and the list holds nothing.
pub open spec fn shards_empty(server: TileServerConfig) -> bool {
    server.servers matches Some(shards) && shards@.len() == 0
}

/// What `check_config` finds: the first thing that is wrong, in the order
/// of `ConfigError`, or nothing.
pub open spec fn config_fault(c: LinksConfig) -> Option<ConfigError> {
    if c.tile_servers@.len() == 0 {
        Some(ConfigError::NoTileServers)
    } else if c.user_agents@.len() == 0 {
        Some(ConfigError::NoUserAgents)
    } else if c.tor_addr_list@.len() == 0 {
        Some(ConfigError::NoTorAddr)
    } else if !server_names(c.tile_servers@).no_duplicates() {
        Some(ConfigError::DuplicateTileServer)
    } else if !scraper_names(c.socks5_scrape_servers@).no_duplicates() {
        Some(ConfigError::DuplicateScraper)
    } else if has_empty_shards(c.tile_servers@) {
        Some(ConfigError::EmptyServerShards)
    } else {
        None
    }
}


/// Where the local tile cache serves a tile of a server:
/// `http://localhost:8000/api/tile/<name>/<z>/<x>/<y>/tile.<img_type>`.
pub open spec fn tile_url(server: TileServerConfig, tile: TileCoord) -> Seq<char> {
    "http://localhost:8000/api/tile/"@ + server.name@ + seq!['/'] + decimal(tile.z as nat)
        + seq!['/'] + decimal(tile.x as nat) + seq!['/'] + decimal(tile.y as nat) + "/tile."@
        + server.img_type@
}

/// The image format that goes by the server's image type: PNG for `png`,
/// JPEG for `jpg`, and none for anything else.
pub open spec fn img_format_of(img_type: Seq<char>) -> Option<ImgFormat> {
    if img_type == "jpg"@ {
        Some(ImgFormat::Jpeg)
    } else if img_type == "png"@ {
        Some(ImgFormat::Png)
    } else {
        None
    }
}

impl TileServerConfig {
    /// The URL under which the local tile cache serves `tile`.
    pub fn get_tile_url(&self, tile: TileCoord) -> (url: String)
        ensures
            url@ == tile_url(*self, tile),
    {
        let mut url = String::from_str("http://localhost:8000/api/tile/");
        url.append(self.name.as_str());
        url.push('/');
        push_decimal(&mut url, tile.z as u64);
        url.push('/');
        push_decimal(&mut url, tile.x);
        url.push('/');
        push_decimal(&mut url, tile.y);
        url.append("/tile.");
        url.append(self.img_type.as_str());
        proof {
            assert(url@ =~= tile_url(*self, tile));
        }
        url
    }

    /// The image format of the server's tiles, if its image type is one of
    /// `jpg` and `png`.
    pub fn img_type(&self) -> (format: Option<ImgFormat>)
        ensures
            format == img_format_of(self.img_type@),
    {
        if self.img_type == String::from_str("jpg") {
            Some(ImgFormat::Jpeg)
        } else if self.img_type == String::from_str("png") {
            Some(ImgFormat::Png)
        } else {
            None
        }
    }
}

/// Appends `name` to the path in `path`, as `joined` has it.
pub fn push_path(path: &mut String, name: &str)
    ensures
        final(path)@ == joined(old(path)@, name@),
{
    let n = path.as_str().unicode_len();
    let m = name.unicode_len();
    if n == 0 || (m > 0 && name.get_char(0) == '/') {
        *path = String::from_str(name);
    } else if path.as_str().get_char(n - 1) == '/' {
        path.append(name);
    } else {
        path.push('/');
        path.append(name);
        proof {
            assert(path@ =~= old(path)@ + seq!['/'] + name@);
        }
    }
}

/// Whether no text stands twice in the list of names that `name_at` reads.
fn names_are_unique(names: &Vec<String>) -> (unique: bool)
    ensures
        unique == Seq::new(names@.len(), |i: int| names@[i]@).no_duplicates(),
{
    let ghost texts = Seq::new(names@.len(), |i: int| names@[i]@);
    let mut i: usize = 0;
    while i < names.len()
        invariant
            i <= names@.len(),
            texts == Seq::new(names@.len(), |i: int| names@[i]@),
            forall|a: int, b: int| 0 <= a < b < names@.len() && b < i ==> texts[a] != texts[b],
        decreases names@.len() - i,
    {
        let mut j: usize = 0;
        while j < i
            invariant
                j <= i < names@.len(),
                texts == Seq::new(names@.len(), |i: int| names@[i]@),
                forall|a: int| 0 <= a < j ==> texts[a] != texts[i as int],
            decreases i - j,
        {
            if names[j] == names[i] {
                proof {
                    assert(texts[j as int] == texts[i as int]);
                }
                return false;
            }
            j += 1;
        }
        i += 1;
    }
    true
}

/// Checks a configuration: there is a tile server, a user agent and a Tor
/// endpoint; no two tile servers and no two scrapers go by one name; and a
/// tile server that lists shards lists at least one.
pub fn check_config(config: &LinksConfig) -> (checked: Result<(), ConfigError>)
    ensures
        checked is Ok <==> config_fault(*config) is None,
        checked matches Err(e) ==> config_fault(*config) == Some(e),
{
    if config.tile_servers.len() == 0 {
        return Err(ConfigError::NoTileServers);
    }
    if config.user_agents.len() == 0 {
        return Err(ConfigError::NoUserAgents);
    }
    if config.tor_addr_list.len() == 0 {
        return Err(ConfigError::NoTorAddr);
    }
    let mut names: Vec<String> = Vec::new();
    let mut i: usize = 0;
    while i < config.tile_servers.len()
        invariant
            i <= config.tile_servers@.len(),
            names@.len() == i,
            forall|k: int| 0 <= k < i ==> (#[trigger] names@[k])@ == config.tile_servers@[k].name@,
        decreases config.tile_servers@.len() - i,
    {
        names.push(config.tile_servers[i].name.clone());
        i += 1;
    }
    proof {
        assert(Seq::new(names@.len(), |i: int| names@[i]@) =~= server_names(
            config.tile_servers@,
        ));
    }
    if !names_are_unique(&names) {
        return Err(ConfigError::DuplicateTileServer);
    }
    let mut scrapers: Vec<String> = Vec::new();
    let mut i: usize = 0;
    while i < config.socks5_scrape_servers.len()
        invariant
            i <= config.socks5_scrape_servers@.len(),
            scrapers@.len() == i,
            forall|k: int|
                0 <= k < i ==> (#[trigger] scrapers@[k])@ == config.socks5_scrape_servers@[k].name@,
        decreases config.socks5_scrape_servers@.len() - i,
    {
        scrapers.push(config.socks5_scrape_servers[i].name.clone());
        i += 1;
    }
    proof {
        assert(Seq::new(scrapers@.len(), |i: int| scrapers@[i]@) =~= scraper_names(
            config.socks5_scrape_servers@,
        ));
    }
    if !names_are_unique(&scrapers) {
        return Err(ConfigError::DuplicateScraper);
    }
    let mut i: usize = 0;
    while i < config.tile_servers.len()
        invariant
            i <= config.tile_servers@.len(),
            config.tile_servers@.len() != 0,
            config.user_agents@.len() != 0,
            config.tor_addr_list@.len() != 0,
            server_names(config.tile_servers@).no_duplicates(),
            scraper_names(config.socks5_scrape_servers@).no_duplicates(),
            forall|k: int| 0 <= k < i ==> !shards_empty(#[trigger] config.tile_servers@[k]),
        decreases config.tile_servers@.len() - i,
    {
        match &config.tile_servers[i].servers {
            Some(shards) => {
                if shards.len() == 0 {
                    proof {
                        assert(shards_empty(config.tile_servers@[i as int]));
                    }
                    return Err(ConfigError::EmptyServerShards);
                }
            },
            None => {},
        }
        i += 1;
    }
    Ok(())
}

/// Where the tile server `server_name` stands in `servers`, if it is
/// there.
pub fn get_tile_server<'a>(servers: &'a Vec<TileServerConfig>, server_name: &str) -> (found: Option<
    &'a TileServerConfig,
>)
    ensures
        found matches Some(s) ==> s.name@ == server_name@ && exists|i: int|
            0 <= i < servers@.len() && #[trigger] servers@[i] == *s,
        found is None ==> !server_names(servers@).contains(server_name@),
{
    let wanted = String::from_str(server_name);
    let mut i: usize = 0;
    while i < servers.len()
        invariant
            i <= servers@.len(),
            wanted@ == server_name@,
            forall|k: int| 0 <= k < i ==> (#[trigger] servers@[k]).name@ != server_name@,
        decreases servers@.len() - i,
    {
        if servers[i].name == wanted {
            return Some(&servers[i]);
        }
        i += 1;
    }
    proof {
        let names = server_names(servers@);
        assert forall|k: int| 0 <= k < names.len() implies names[k] != server_name@ by {
            assert(servers@[k].name@ != server_name@);
        }
    }
    None
}

/// The tile servers of the configuration.
pub fn get_all_tile_servers(config: &LinksConfig) -> (servers: &Vec<TileServerConfig>)
    ensures
        servers == config.tile_servers,
{
    &config.tile_servers
}

/// The proxy scrapers of the configuration.
pub fn get_all_socks5_scrapers(config: &LinksConfig) -> (scrapers: &Vec<Socks5ProxyScraperConfig>)
    ensures
        scrapers == config.socks5_scrape_servers,
{
    &config.socks5_scrape_servers
}

/// The directory for temporary files: `tmp` below the tile location.
pub fn tmpdir(config: &LinksConfig) -> (dir: String)
    ensures
        dir@ == joined(config.tile_location@, "tmp"@),
{
    let mut dir = config.tile_location.clone();
    push_path(&mut dir, "tmp");
    dir
}

} // verus!
