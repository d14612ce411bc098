use terramenta::fetch::{
    asset_path, parse_path, request_url, resolve, split_scheme, SlotUrls, WebScheme, CACHE_BUSTER,
};

#[test]
fn a_path_names_a_slot_and_a_generation() {
    assert_eq!(asset_path("geojson", 3, 7, "geojson"), "geojson://3/7.geojson");
    assert_eq!(parse_path("3/7.geojson"), Some((3, 7)));
    assert_eq!(parse_path("4/0.omm"), Some((4, 0)));
    assert_eq!(parse_path("nonsense"), None);
}

#[test]
fn only_a_refetch_carries_the_cache_buster() {
    let url = "https://example.org/all_hour.geojson";
    assert_eq!(request_url(url, 0), url);
    assert_eq!(request_url(url, 2), format!("{url}?{CACHE_BUSTER}=2"));
    assert_eq!(
        request_url("https://example.org/feed?format=geojson", 1),
        format!("https://example.org/feed?format=geojson&{CACHE_BUSTER}=1")
    );
}

#[test]
fn a_path_reads_back_whatever_its_numbers() {
    let path = asset_path("omm", u64::MAX, u32::MAX, "omm");
    assert_eq!(path, format!("omm://{}/{}.omm", u64::MAX, u32::MAX));
    assert_eq!(parse_path(&path["omm://".len()..]), Some((u64::MAX, u32::MAX)));
}

#[test]
fn a_path_out_of_range_or_without_numbers_is_refused() {
    // One past the largest generation does not fit.
    assert_eq!(parse_path("1/4294967296.omm"), None);
    assert_eq!(parse_path("x/1.omm"), None);
    assert_eq!(parse_path("1/"), None);
    // A leading plus is a number to the standard parser too.
    assert_eq!(parse_path("+1/+2.omm"), Some((1, 2)));
}

#[test]
fn the_cache_buster_counts_in_decimal() {
    assert_eq!(request_url("u", 10), format!("u?{CACHE_BUSTER}=10"));
    assert_eq!(request_url("u?", 7), format!("u?&{CACHE_BUSTER}=7"));
}

#[test]
fn a_url_is_split_at_its_first_scheme_separator() {
    assert_eq!(
        split_scheme("https://example.org/a://b"),
        Some((WebScheme::Https, "example.org/a://b".to_string()))
    );
    assert_eq!(split_scheme("http://h/x"), Some((WebScheme::Http, "h/x".to_string())));
    assert_eq!(split_scheme("ftp://example.org/a"), None);
    assert_eq!(split_scheme("example.org/a"), None);
    assert_eq!(split_scheme("https:/x"), None);
}

#[test]
fn a_request_resolves_through_its_slot_to_a_url() {
    let mut urls = SlotUrls::new();
    urls.insert(3, "https://example.org/feed?format=json".to_string());
    urls.insert(4, "file:///feed.json".to_string());
    assert_eq!(
        resolve("3/0.omm", &urls),
        Some((WebScheme::Https, "example.org/feed?format=json".to_string()))
    );
    assert_eq!(
        resolve("3/2.omm", &urls),
        Some((WebScheme::Https, format!("example.org/feed?format=json&{CACHE_BUSTER}=2")))
    );
    // No such slot, a scheme nothing fetches over, and a path that names none.
    assert_eq!(resolve("5/0.omm", &urls), None);
    assert_eq!(resolve("4/0.omm", &urls), None);
    assert_eq!(resolve("nonsense", &urls), None);
    urls.remove(3);
    assert_eq!(resolve("3/0.omm", &urls), None);
    assert!(urls.get(4).is_some());
}
