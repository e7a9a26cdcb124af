//! Tile downloads: which tile requests a server can answer, where a tile
//! is kept, where it is fetched from, and whether what came back is the
//! image that was asked for.

use crate::config::{joined, push_path, TileServerConfig};
use crate::geo_trig::{bing_quadkey, in_extent, xyz_to_bing_quadkey, TileCoord, MAX_ZOOM};
use crate::proxy_scrape::texts;
use crate::random::choose_entry;
use crate::text::{decimal, decimal_string, push_decimal};
use crate::web_text::{strfmt_pairs, strfmt_result};
use vstd::prelude::*;
use vstd::string::*;

verus! {

/// The error of `image` for bytes it cannot decode.
#[verifier::external_type_specification]
#[verifier::external_body]
pub struct ExImageError(image::ImageError);

/// A tile asked of a tile server.
#[derive(Clone, Debug)]
pub struct TileFetchId {
    pub x: u64,
    pub y: u64,
    pub z: u8,
    pub server_name: String,
    pub extension: String,
}

/// The image formats that tile servers deliver, and every other.
#[derive(Clone, Copy, Debug, PartialEq, Eq, Structural)]
pub enum ImgFormat {
    Png,
    Jpeg,
    Other,
}

/// Why a tile request is refused.
#[derive(Clone, Copy, Debug, PartialEq, Eq, Structural)]
pub enum TileRequestError {
    /// The level lies below the server's deepest.
    ZoomTooDeep,
    /// The extension is not the server's image type.
    WrongExtension,
    /// Column or row lies outside the grid of the level.
    OutsideExtent,
}

/// Why no URL could be made for a tile.
#[derive(Clone, Copy, Debug, PartialEq, Eq, Structural)]
pub enum TileUrlError {
    /// The server lists shards, and the list holds nothing.
    NoShard,
    /// The server's URL template is not one.
    BadTemplate,
}

/// Why downloaded bytes are not the tile that was asked for.
#[derive(Clone, Copy, Debug, PartialEq, Eq, Structural)]
pub enum TileParseError {
    /// The bytes begin like no image format.
    UnknownFormat,
    /// The bytes are an image of another format than the server's.
    WrongFormat,
    /// The bytes do not decode.
    Undecodable,
    /// The image is not as wide as the server's tiles.
    WrongWidth { expected: u32, got: u32 },
    /// The image is not as high as the server's tiles.
    WrongHeight { expected: u32, got: u32 },
}

/// The format that `image` guesses from how the bytes begin; `None` where
/// it knows no format that begins so.
pub uninterp spec fn sniffed_format(bytes: Seq<u8>) -> Option<ImgFormat>;

/// Width and height of the image that `image` decodes from the bytes, in
/// the format guessed from them; `None` where it decodes none.
pub uninterp spec fn decoded_size(bytes: Seq<u8>) -> Option<(u32, u32)>;

/// `image::io::Reader::with_guessed_format` and `format` on the bytes: the
/// format that the crate guesses, as `sniffed_format` names it.
#[verifier::external_body]
fn sniff_image_format(bytes: &Vec<u8>) -> (format: Option<ImgFormat>)
    ensures
        format == sniffed_format(bytes@),
{
    let reader = image::io::Reader::new(std::io::Cursor::new(bytes.as_slice()));
    match reader.with_guessed_format().ok()?.format()? {
        image::ImageFormat::Png => Some(ImgFormat::Png),
        image::ImageFormat::Jpeg => Some(ImgFormat::Jpeg),
        _ => Some(ImgFormat::Other),
    }
}

/// `image::io::Reader::decode` on the bytes, in the format guessed from
/// them: width and height of the decoded image, as `decoded_size` names
/// them, or the crate's error.
#[verifier::external_body]
fn decode_image_size(bytes: &Vec<u8>) -> (size: Result<(u32, u32), image::ImageError>)
    ensures
        size is Err ==> decoded_size(bytes@) is None,
        size matches Ok(wh) ==> decoded_size(bytes@) == Some(wh),
{
    let reader = image::io::Reader::new(std::io::Cursor::new(bytes.as_slice()));
    let img = reader.with_guessed_format().map_err(image::ImageError::IoError)?.decode()?;
    Ok((img.width(), img.height()))
}

/// The file extensions that go with an image format: `png` for PNG, `jpg`
/// and `jpeg` for JPEG.
pub open spec fn format_has_extension(format: ImgFormat, extension: Seq<char>) -> bool {
    match format {
        ImgFormat::Png => extension == "png"@,
        ImgFormat::Jpeg => extension == "jpg"@ || extension == "jpeg"@,
        ImgFormat::Other => false,
    }
}

/// What is wrong with a tile request for `server`, first fault first.
pub open spec fn request_fault(id: TileFetchId, server: TileServerConfig) -> Option<
    TileRequestError,
> {
    if server.max_level < id.z {
        Some(TileRequestError::ZoomTooDeep)
    } else if id.extension@ != server.img_type@ {
        Some(TileRequestError::WrongExtension)
    } else if !in_extent(id.x, id.y, id.z) {
        Some(TileRequestError::OutsideExtent)
    } else {
        None
    }
}

/// Where the tile is kept: below `tile_location`, by map type, server,
/// level and column, as `<row>.<extension>`.
pub open spec fn final_path(id: TileFetchId, server: TileServerConfig, tile_location: Seq<char>) -> Seq<
    char,
> {
    joined(
        joined(
            joined(
                joined(joined(tile_location, server.map_type@), server.name@),
                decimal(id.z as nat),
            ),
            decimal(id.x as nat),
        ),
        decimal(id.y as nat) + seq!['.'] + id.extension@,
    )
}

/// The names that a tile URL template may use.
pub open spec fn url_keys() -> Seq<Seq<char>> {
    seq!["s"@, "x"@, "y"@, "z"@, "bing_quadkey"@]
}

/// What the names of a tile URL template stand for: the shard, column, row
/// and level in decimal, and the quadkey.
pub open spec fn url_values(id: TileFetchId, shard: Seq<char>) -> Seq<Seq<char>> {
    seq![
        shard,
        decimal(id.x as nat),
        decimal(id.y as nat),
        decimal(id.z as nat),
        bing_quadkey(id.x as nat, id.y as nat, id.z as nat),
    ]
}

/// What is wrong with downloaded bytes, given what `image` makes of them:
/// the format must be known and go with the server's image type, the bytes
/// must decode, and the image must have exactly the width and the height
/// of the server's tiles. The first fault counts.
pub open spec fn parse_fault(
    server: TileServerConfig,
    format: Option<ImgFormat>,
    size: Option<(u32, u32)>,
) -> Option<TileParseError> {
    match format {
        None => Some(TileParseError::UnknownFormat),
        Some(f) => if !format_has_extension(f, server.img_type@) {
            Some(TileParseError::WrongFormat)
        } else {
            match size {
                None => Some(TileParseError::Undecodable),
                Some(wh) => if wh.0 != server.width {
                    Some(TileParseError::WrongWidth { expected: server.width, got: wh.0 })
                } else if wh.1 != server.height {
                    Some(TileParseError::WrongHeight { expected: server.height, got: wh.1 })
                } else {
                    None
                },
            }
        },
    }
}

/// Whether `extension` goes with `format`.
pub fn extension_matches(format: ImgFormat, extension: &String) -> (yes: bool)
    ensures
        yes == format_has_extension(format, extension@),
{
    match format {
        ImgFormat::Png => *extension == String::from_str("png"),
        ImgFormat::Jpeg => *extension == String::from_str("jpg") || *extension
            == String::from_str("jpeg"),
        ImgFormat::Other => false,
    }
}

/// Holds what `image` made of downloaded bytes against the server's tiles.
pub fn check_tile_image(
    server: &TileServerConfig,
    format: Option<ImgFormat>,
    size: Option<(u32, u32)>,
) -> (checked: Result<(), TileParseError>)
    ensures
        checked is Ok <==> parse_fault(*server, format, size) is None,
        checked matches Err(e) ==> parse_fault(*server, format, size) == Some(e),
{
    let f = match format {
        Some(f) => f,
        None => { return Err(TileParseError::UnknownFormat); },
    };
    if !extension_matches(f, &server.img_type) {
        return Err(TileParseError::WrongFormat);
    }
    let wh = match size {
        Some(wh) => wh,
        None => { return Err(TileParseError::Undecodable); },
    };
    if wh.0 != server.width {
        return Err(TileParseError::WrongWidth { expected: server.width, got: wh.0 });
    }
    if wh.1 != server.height {
        return Err(TileParseError::WrongHeight { expected: server.height, got: wh.1 });
    }
    Ok(())
}

impl TileFetchId {
    /// How often a tile is tried before it is given up.
    pub fn get_retry_count() -> (n: u8)
        ensures
            n == 3,
    {
        3
    }

    /// Version of the cache tables for tiles.
    pub fn get_version() -> (v: usize)
        ensures
            v == 0,
    {
        0
    }

    /// The tile's coordinate.
    pub fn coord(&self) -> (c: TileCoord)
        ensures
            c == (TileCoord { x: self.x, y: self.y, z: self.z }),
    {
        TileCoord { x: self.x, y: self.y, z: self.z }
    }

    /// Whether `server` can answer the request: the level is not below the
    /// server's deepest, the extension is the server's image type, and
    /// column and row lie inside the grid of the level.
    pub fn is_valid_request(&self, server: &TileServerConfig) -> (checked: Result<
        (),
        TileRequestError,
    >)
        ensures
            checked is Ok <==> request_fault(*self, *server) is None,
            checked matches Err(e) ==> request_fault(*self, *server) == Some(e),
    {
        if server.max_level < self.z {
            return Err(TileRequestError::ZoomTooDeep);
        }
        if !(self.extension == server.img_type) {
            return Err(TileRequestError::WrongExtension);
        }
        if !self.coord().is_valid() {
            return Err(TileRequestError::OutsideExtent);
        }
        Ok(())
    }

    /// Where the tile is kept below `tile_location`. The server is the one
    /// the request names, and the extension its image type.
    pub fn get_final_path(&self, server: &TileServerConfig, tile_location: &str) -> (path: String)
        requires
            server.name@ == self.server_name@,
            server.img_type@ == self.extension@,
        ensures
            path@ == final_path(*self, *server, tile_location@),
    {
        let mut path = String::from_str(tile_location);
        push_path(&mut path, server.map_type.as_str());
        push_path(&mut path, server.name.as_str());
        push_path(&mut path, decimal_string(self.z as u64).as_str());
        push_path(&mut path, decimal_string(self.x).as_str());
        let mut file = String::new();
        push_decimal(&mut file, self.y);
        file.push('.');
        file.append(self.extension.as_str());
        proof {
            assert(file@ =~= decimal(self.y as nat) + seq!['.'] + self.extension@);
        }
        push_path(&mut path, file.as_str());
        path
    }

    /// The URL of the tile on the shard `shard` of `server`: the server's
    /// template with shard, column, row, level and quadkey filled in.
    pub fn get_url_for_shard(&self, server: &TileServerConfig, shard: &str) -> (url: Result<
        String,
        TileUrlError,
    >)
        requires
            self.z <= MAX_ZOOM,
        ensures
            url matches Ok(u) ==> strfmt_result(server.url@, url_keys(), url_values(*self, shard@))
                == Some(u@),
            url matches Err(e) ==> e == TileUrlError::BadTemplate && strfmt_result(
                server.url@,
                url_keys(),
                url_values(*self, shard@),
            ) is None,
    {
        let mut keys: Vec<String> = Vec::new();
        keys.push(String::from_str("s"));
        keys.push(String::from_str("x"));
        keys.push(String::from_str("y"));
        keys.push(String::from_str("z"));
        keys.push(String::from_str("bing_quadkey"));
        let mut values: Vec<String> = Vec::new();
        values.push(String::from_str(shard));
        values.push(decimal_string(self.x));
        values.push(decimal_string(self.y));
        values.push(decimal_string(self.z as u64));
        values.push(xyz_to_bing_quadkey(self.x, self.y, self.z));
        proof {
            assert(texts(keys@) =~= url_keys());
            assert(texts(values@) =~= url_values(*self, shard@));
        }
        match strfmt_pairs(server.url.as_str(), &keys, &values) {
            Ok(u) => Ok(u),
            Err(_) => Err(TileUrlError::BadTemplate),
        }
    }

    /// A URL of the tile on `server`, on a shard drawn at random where the
    /// server has shards.
    pub fn get_random_url(&self, server: &TileServerConfig) -> (url: Result<String, TileUrlError>)
        requires
            self.z <= MAX_ZOOM,
        ensures
            shards_of(*server).len() == 0 && server.servers is Some <==> url == Err::<
                String,
                TileUrlError,
            >(TileUrlError::NoShard),
            url matches Ok(u) ==> exists|shard: Seq<char>|
                is_shard_of(*server, shard) && #[trigger] strfmt_result(
                    server.url@,
                    url_keys(),
                    url_values(*self, shard),
                ) == Some(u@),
            url == Err::<String, TileUrlError>(TileUrlError::BadTemplate) ==> exists|
                shard: Seq<char>,
            |
                is_shard_of(*server, shard) && #[trigger] strfmt_result(
                    server.url@,
                    url_keys(),
                    url_values(*self, shard),
                ) is None,
    {
        match &server.servers {
            None => {
                let url = self.get_url_for_shard(server, "");
                proof {
                    assert(is_shard_of(*server, ""@));
                }
                url
            },
            Some(shards) => match choose_entry(shards) {
                None => Err(TileUrlError::NoShard),
                Some(shard) => {
                    let url = self.get_url_for_shard(server, shard.as_str());
                    proof {
                        assert(is_shard_of(*server, shard@));
                    }
                    url
                },
            },
        }
    }

    /// Whether `bytes` are the tile that was asked of `server`: an image
    /// of the server's format with exactly the width and the height of the
    /// server's tiles.
    pub fn parse_respose(&self, server: &TileServerConfig, bytes: &Vec<u8>) -> (parsed: Result<
        (),
        TileParseError,
    >)
        ensures
            parsed is Ok <==> parse_fault(*server, sniffed_format(bytes@), decoded_size(bytes@))
                is None,
            parsed matches Err(e) ==> parse_fault(
                *server,
                sniffed_format(bytes@),
                decoded_size(bytes@),
            ) == Some(e),
    {
        let format = sniff_image_format(bytes);
        let known = match format {
            Some(f) => extension_matches(f, &server.img_type),
            None => false,
        };
        if !known {
            return check_tile_image(server, format, None);
        }
        let size = match decode_image_size(bytes) {
            Ok(wh) => Some(wh),
            Err(_) => None,
        };
        check_tile_image(server, format, size)
    }
}

/// The shards of a server that has any.
pub open spec fn shards_of(server: TileServerConfig) -> Seq<String> {
    match server.servers {
        Some(shards) => shards@,
        None => Seq::empty(),
    }
}

/// What `{s}` may stand for in the server's URLs: one of its shards, or
/// nothing where it has none.
pub open spec fn is_shard_of(server: TileServerConfig, shard: Seq<char>) -> bool {
    match server.servers {
        Some(shards) => exists|i: int| 0 <= i < shards@.len() && (#[trigger] shards@[i])@ == shard,
        None => shard == ""@,
    }
}

/// Parse rejects wrong dimensions: bytes that decode to an image of
/// another width or height than the server's tiles are no tile, whatever
/// their format. (The attempt that fetched them has failed then, and by
/// `lemma_failed_attempt_gives_no_result` the request gets no result from
/// it.)
pub proof fn lemma_wrong_dimensions_rejected(
    server: TileServerConfig,
    format: Option<ImgFormat>,
    width: u32,
    height: u32,
)
    requires
        width != server.width || height != server.height,
    ensures
        parse_fault(server, format, Some((width, height))) is Some,
{
}

} // verus!
