use map_poster::location::GeocodeError;
use map_poster::poster::create_poster;
use map_poster::poster::generate_output_filename;

#[test]
fn output_filename_slugs_the_city() {
    let name = generate_output_filename("New York", "dark", "posters", "2024-01-02T03:04:05Z");
    assert_eq!(name, "posters/new_york_dark_2024-01-02T03:04:05Z.png");
}

#[test]
fn output_filename_keeps_lowercase_city() {
    let name = generate_output_filename("oslo", "bright", "out", "t");
    assert_eq!(name, "out/oslo_bright_t.png");
}

#[test]
fn poster_run_resolves_and_names_the_file() {
    let body = "[{\
        \"place_id\":1,\"licence\":\"L\",\"osm_type\":\"node\",\"osm_id\":2,\
        \"lat\":\"59.9139\",\"lon\":\"10.7522\",\"category\":\"place\",\
        \"type\":\"city\",\"place_rank\":16,\"importance\":0.7,\
        \"addresstype\":\"city\",\"name\":\"Oslo\",\"display_name\":\"Oslo, Norway\",\
        \"boundingbox\":[\"59.8\",\"60.0\",\"10.6\",\"10.9\"]}]";
    let (loc, file) = create_poster("Oslo", "dark", "posters", 200, body, "now").unwrap();
    assert_eq!(loc.display_name, "Oslo, Norway");
    assert_eq!(loc.lat, 599_139_000);
    assert_eq!(loc.lon, 107_522_000);
    assert_eq!(file, "posters/oslo_dark_now.png");
}

#[test]
fn poster_run_passes_resolution_errors_through() {
    let err = create_poster("Oslo", "dark", "posters", 503, "[]", "now").unwrap_err();
    assert_eq!(err, GeocodeError::HttpStatus(503));
    let err = create_poster("Oslo", "dark", "posters", 200, "[]", "now").unwrap_err();
    assert_eq!(err, GeocodeError::NoResults);
}
