use crooked_earth::config::TileServerConfig;
use crooked_earth::download_tile::{
    check_tile_image, extension_matches, ImgFormat, TileFetchId, TileParseError, TileRequestError,
    TileUrlError,
};

fn server() -> TileServerConfig {
    TileServerConfig {
        name: "osm".to_string(),
        comment: String::new(),
        url: "https://{s}.tile.example/{z}/{x}/{y}.png".to_string(),
        width: 8,
        height: 4,
        max_level: 19,
        img_type: "png".to_string(),
        map_type: "street".to_string(),
        servers: Some(vec!["a".to_string(), "b".to_string(), "c".to_string()]),
        planet: "earth".to_string(),
    }
}

fn tile(x: u64, y: u64, z: u8) -> TileFetchId {
    TileFetchId { x, y, z, server_name: "osm".to_string(), extension: "png".to_string() }
}

fn encoded(width: u32, height: u32, format: image::ImageFormat) -> Vec<u8> {
    let img = image::RgbImage::new(width, height);
    let mut bytes: Vec<u8> = Vec::new();
    img.write_to(&mut std::io::Cursor::new(&mut bytes), format).unwrap();
    bytes
}

#[test]
fn valid_request_is_taken() {
    assert_eq!(tile(3, 5, 3).is_valid_request(&server()), Ok(()));
    assert_eq!(tile(0, 0, 0).is_valid_request(&server()), Ok(()));
    assert_eq!(tile(524_287, 524_287, 19).is_valid_request(&server()), Ok(()));
}

#[test]
fn each_fault_of_a_request_is_named() {
    assert_eq!(tile(0, 0, 20).is_valid_request(&server()), Err(TileRequestError::ZoomTooDeep));
    let mut jpg = tile(3, 5, 3);
    jpg.extension = "jpg".to_string();
    assert_eq!(jpg.is_valid_request(&server()), Err(TileRequestError::WrongExtension));
    assert_eq!(tile(8, 5, 3).is_valid_request(&server()), Err(TileRequestError::OutsideExtent));
    assert_eq!(tile(3, 8, 3).is_valid_request(&server()), Err(TileRequestError::OutsideExtent));
    let mut deep = tile(8, 8, 20);
    deep.extension = "jpg".to_string();
    assert_eq!(deep.is_valid_request(&server()), Err(TileRequestError::ZoomTooDeep));
}

#[test]
fn tile_is_kept_by_map_type_server_level_and_column() {
    assert_eq!(
        tile(135470, 87999, 18).get_final_path(&server(), "./tiles"),
        "./tiles/street/osm/18/135470/87999.png"
    );
    assert_eq!(tile(0, 0, 0).get_final_path(&server(), "/data/"), "/data/street/osm/0/0/0.png");
}

#[test]
fn url_fills_the_template() {
    assert_eq!(
        tile(3, 5, 3).get_url_for_shard(&server(), "b"),
        Ok("https://b.tile.example/3/3/5.png".to_string())
    );
    let mut bing = server();
    bing.url = "https://t{s}.bing.example/tiles/a{bing_quadkey}.jpeg?g=1".to_string();
    assert_eq!(
        tile(3, 5, 3).get_url_for_shard(&bing, "0"),
        Ok("https://t0.bing.example/tiles/a213.jpeg?g=1".to_string())
    );
    assert_eq!(
        tile(3, 5, 3).get_url_for_shard(&bing, ""),
        Ok("https://t.bing.example/tiles/a213.jpeg?g=1".to_string())
    );
}

#[test]
fn bad_template_is_an_error() {
    let mut broken = server();
    broken.url = "https://{nobody}.example/{z".to_string();
    assert_eq!(tile(3, 5, 3).get_url_for_shard(&broken, "a"), Err(TileUrlError::BadTemplate));
    assert_eq!(tile(3, 5, 3).get_random_url(&broken), Err(TileUrlError::BadTemplate));
}

#[test]
fn random_url_uses_one_of_the_shards() {
    let mut seen = std::collections::HashSet::new();
    for _ in 0..200 {
        seen.insert(tile(3, 5, 3).get_random_url(&server()).unwrap());
    }
    let expected: std::collections::HashSet<String> = ["a", "b", "c"]
        .iter()
        .map(|s| format!("https://{}.tile.example/3/3/5.png", s))
        .collect();
    assert_eq!(seen, expected);
}

#[test]
fn random_url_without_shards() {
    let mut plain = server();
    plain.servers = None;
    assert_eq!(
        tile(3, 5, 3).get_random_url(&plain),
        Ok("https://.tile.example/3/3/5.png".to_string())
    );
    plain.servers = Some(Vec::new());
    assert_eq!(tile(3, 5, 3).get_random_url(&plain), Err(TileUrlError::NoShard));
}

#[test]
fn tile_of_the_right_format_and_size_parses() {
    let bytes = encoded(8, 4, image::ImageFormat::Png);
    assert_eq!(tile(3, 5, 3).parse_respose(&server(), &bytes), Ok(()));
    let mut jpg = server();
    jpg.img_type = "jpg".to_string();
    let bytes = encoded(8, 4, image::ImageFormat::Jpeg);
    assert_eq!(tile(3, 5, 3).parse_respose(&jpg, &bytes), Ok(()));
}

#[test]
fn parse_rejects_wrong_dimensions() {
    let bytes = encoded(9, 4, image::ImageFormat::Png);
    assert_eq!(
        tile(3, 5, 3).parse_respose(&server(), &bytes),
        Err(TileParseError::WrongWidth { expected: 8, got: 9 })
    );
    let bytes = encoded(8, 5, image::ImageFormat::Png);
    assert_eq!(
        tile(3, 5, 3).parse_respose(&server(), &bytes),
        Err(TileParseError::WrongHeight { expected: 4, got: 5 })
    );
    let bytes = encoded(4, 8, image::ImageFormat::Png);
    assert_eq!(
        tile(3, 5, 3).parse_respose(&server(), &bytes),
        Err(TileParseError::WrongWidth { expected: 8, got: 4 })
    );
}

#[test]
fn parse_rejects_other_formats_and_garbage() {
    let bytes = encoded(8, 4, image::ImageFormat::Jpeg);
    assert_eq!(tile(3, 5, 3).parse_respose(&server(), &bytes), Err(TileParseError::WrongFormat));
    assert_eq!(
        tile(3, 5, 3).parse_respose(&server(), &b"<html>blocked</html>".to_vec()),
        Err(TileParseError::UnknownFormat)
    );
    assert_eq!(
        tile(3, 5, 3).parse_respose(&server(), &Vec::new()),
        Err(TileParseError::UnknownFormat)
    );
    let mut cut = encoded(8, 4, image::ImageFormat::Png);
    cut.truncate(20);
    assert_eq!(tile(3, 5, 3).parse_respose(&server(), &cut), Err(TileParseError::Undecodable));
}

#[test]
fn image_check_names_the_first_fault() {
    let s = server();
    assert_eq!(check_tile_image(&s, None, Some((8, 4))), Err(TileParseError::UnknownFormat));
    assert_eq!(
        check_tile_image(&s, Some(ImgFormat::Other), Some((8, 4))),
        Err(TileParseError::WrongFormat)
    );
    assert_eq!(check_tile_image(&s, Some(ImgFormat::Png), None), Err(TileParseError::Undecodable));
    assert_eq!(
        check_tile_image(&s, Some(ImgFormat::Png), Some((1, 1))),
        Err(TileParseError::WrongWidth { expected: 8, got: 1 })
    );
    assert_eq!(check_tile_image(&s, Some(ImgFormat::Png), Some((8, 4))), Ok(()));
}

#[test]
fn extensions_go_with_formats() {
    assert!(extension_matches(ImgFormat::Png, &"png".to_string()));
    assert!(!extension_matches(ImgFormat::Png, &"jpg".to_string()));
    assert!(extension_matches(ImgFormat::Jpeg, &"jpg".to_string()));
    assert!(extension_matches(ImgFormat::Jpeg, &"jpeg".to_string()));
    assert!(!extension_matches(ImgFormat::Other, &"gif".to_string()));
}

#[test]
fn tile_requests_are_tried_three_times() {
    assert_eq!(TileFetchId::get_retry_count(), 3);
    assert_eq!(TileFetchId::get_version(), 0);
}
