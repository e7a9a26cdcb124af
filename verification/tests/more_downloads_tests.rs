use crooked_earth::download_geoduck::{
    geo_view_name, is_overt_table, OvertDataType, OvertureMapsSegment, SegmentError,
};
use crooked_earth::download_geosearch::{BadQuery, BadSearchTemplate, OSMGeolocationSearchQuery};
use crooked_earth::fetch::{curl_arguments, fetch_with_socks5};

fn query(q: &str) -> OSMGeolocationSearchQuery {
    OSMGeolocationSearchQuery { query_str: q.to_string() }
}

fn segment(theme: &str, _type: &str, x: u64, y: u64, z: u8) -> OvertureMapsSegment {
    OvertureMapsSegment { theme: theme.to_string(), _type: _type.to_string(), x, y, z }
}

#[test]
fn queries_of_two_to_128_bytes_are_answered() {
    assert_eq!(query("a").is_valid_request(), Err(BadQuery));
    assert_eq!(query("ab").is_valid_request(), Ok(()));
    assert_eq!(query("é").is_valid_request(), Ok(()));
    assert_eq!(query(&"x".repeat(128)).is_valid_request(), Ok(()));
    assert_eq!(query(&"x".repeat(129)).is_valid_request(), Err(BadQuery));
    assert_eq!(query("").is_valid_request(), Err(BadQuery));
}

#[test]
fn search_answer_is_kept_under_the_encoded_query() {
    assert_eq!(
        query("Aachen Dom").get_final_path("./tiles"),
        "./tiles/geojson/Aachen%20Dom.geo.json"
    );
    assert_eq!(query("a/b~c_d-e.f").get_final_path("t"), "t/geojson/a%2Fb~c_d-e.f.geo.json");
    assert_eq!(query("Zürich").get_final_path("t"), "t/geojson/Z%C3%BCrich.geo.json");
}

#[test]
fn search_url_fills_the_template() {
    assert_eq!(
        query("Aachen Dom").get_random_url("https://search.example/?q={q_urlencoded}&format=geojson"),
        Ok("https://search.example/?q=Aachen%20Dom&format=geojson".to_string())
    );
    assert_eq!(query("ab").get_random_url("https://search.example/?q={other}"), Err(BadSearchTemplate));
}

#[test]
fn view_names_name_theme_and_type() {
    assert_eq!(OvertDataType::new("base", "water").view_name(), "base_water_s3_view");
    assert_eq!(OvertDataType::new("base", "*").view_name(), "base_s3_view");
    let kind = OvertDataType::new("places", "place");
    assert_eq!((kind.theme.as_str(), kind._type.as_str()), ("places", "place"));
}

#[test]
fn local_view_names_name_theme_and_type() {
    assert_eq!(geo_view_name("base", "water"), "base_water_view");
    assert_eq!(geo_view_name("base", "*"), "base_view");
}

#[test]
fn themes_of_the_data_set_are_known() {
    assert!(is_overt_table(&"admins".to_string(), &"locality".to_string()));
    assert!(is_overt_table(&"transportation".to_string(), &"segment".to_string()));
    assert!(!is_overt_table(&"admins".to_string(), &"*".to_string()));
    assert!(!is_overt_table(&"locality".to_string(), &"admins".to_string()));
}

#[test]
fn each_fault_of_a_segment_is_named() {
    assert_eq!(segment("base", "water", 5, 5, 10).is_valid_request(), Ok(()));
    assert_eq!(segment("base", "water", 65_535, 65_535, 16).is_valid_request(), Ok(()));
    assert_eq!(
        segment("base", "lava", 5, 5, 10).is_valid_request(),
        Err(SegmentError::UnknownTheme)
    );
    assert_eq!(
        segment("base", "water", 5, 5, 9).is_valid_request(),
        Err(SegmentError::BadZoomLevel)
    );
    assert_eq!(
        segment("base", "water", 5, 5, 17).is_valid_request(),
        Err(SegmentError::BadZoomLevel)
    );
    assert_eq!(
        segment("base", "water", 1024, 5, 10).is_valid_request(),
        Err(SegmentError::OutsideExtent)
    );
}

#[test]
fn deep_segments_are_cut_from_their_parent() {
    assert!(segment("base", "water", 5, 5, 10).parent().is_none());
    assert!(segment("base", "water", 5, 5, 3).parent().is_none());
    let up = segment("base", "water", 2_001, 4_002, 12).parent().unwrap();
    assert_eq!((up.theme.as_str(), up._type.as_str()), ("base", "water"));
    assert_eq!((up.x, up.y, up.z), (1_000, 2_001, 11));
    assert_eq!(OvertureMapsSegment::get_retry_count(), 2);
    assert_eq!(OvertureMapsSegment::get_version(), 3);
}

#[test]
fn segment_is_kept_by_theme_type_level_column_and_row() {
    assert_eq!(
        segment("base", "water", 7, 9, 11).get_final_path("./tiles"),
        "./tiles/geoduck/base/water/11/7/9/data.geo.parquet"
    );
}

#[test]
fn fetch_arguments_leave_time_to_connect() {
    assert_eq!(
        curl_arguments("/tmp/x", "agent/1.0", "1.2.3.4:1080", 10, "https://a.example/"),
        vec![
            "-s",
            "-o",
            "/tmp/x",
            "--user-agent",
            "agent/1.0",
            "--socks5-hostname",
            "1.2.3.4:1080",
            "--connect-timeout",
            "8",
            "--max-time",
            "9",
            "https://a.example/",
        ]
    );
    let args = curl_arguments("p", "a", "s", 2, "u");
    assert_eq!((args[8].as_str(), args[10].as_str()), ("0", "1"));
}

#[test]
fn fetch_needs_a_user_agent() {
    assert!(fetch_with_socks5(&Vec::new(), 10, "u", "p", "s").is_none());
    let agents = vec!["one".to_string(), "two".to_string()];
    for _ in 0..20 {
        let args = fetch_with_socks5(&agents, 10, "u", "p", "s").unwrap();
        assert!(args[4] == "one" || args[4] == "two");
        assert_eq!(args[11], "u");
        assert_eq!(args[2], "p");
        assert_eq!(args[6], "s");
    }
}
