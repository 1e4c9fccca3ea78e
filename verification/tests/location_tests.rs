use map_poster::location::GeocodeError;
use map_poster::location::Location;
use map_poster::location::build_query;
use map_poster::location::parse_coordinate_e7;

fn candidate(lat: &str, lon: &str) -> String {
    format!(
        "{{\
        \"place_id\":12345,\
        \"licence\":\"Data ODbL\",\
        \"osm_type\":\"relation\",\
        \"osm_id\":71525,\
        \"lat\":\"{}\",\
        \"lon\":\"{}\",\
        \"category\":\"boundary\",\
        \"type\":\"administrative\",\
        \"place_rank\":15,\
        \"importance\":0.96,\
        \"addresstype\":\"city\",\
        \"name\":\"Paris\",\
        \"display_name\":\"Paris, Ile-de-France, France\",\
        \"boundingbox\":[\"48.8\",\"48.9\",\"2.2\",\"2.4\"]\
        }}",
        lat, lon
    )
}

#[test]
fn resolves_first_candidate_exactly() {
    let body = format!("[{},{}]", candidate("48.8566", "2.3522"), candidate("1", "2"));
    let loc = Location::from_response(200, &body).unwrap();
    assert_eq!(loc.display_name, "Paris, Ile-de-France, France");
    assert_eq!(loc.lat, 488_566_000);
    assert_eq!(loc.lon, 23_522_000);
}

#[test]
fn resolves_negative_coordinates() {
    let body = format!("[{}]", candidate("-33.4489", "-70.6693"));
    let loc = Location::from_response(204, &body).unwrap();
    assert_eq!(loc.lat, -334_489_000);
    assert_eq!(loc.lon, -706_693_000);
}

#[test]
fn empty_candidate_list_is_no_results() {
    let err = Location::from_response(200, "[]").unwrap_err();
    assert_eq!(err, GeocodeError::NoResults);
}

#[test]
fn unparseable_latitude_is_invalid_coordinate() {
    let body = format!("[{}]", candidate("abc", "2.3522"));
    let err = Location::from_response(200, &body).unwrap_err();
    assert_eq!(err, GeocodeError::InvalidCoordinate);
}

#[test]
fn out_of_range_latitude_is_invalid_coordinate() {
    let body = format!("[{}]", candidate("90.0000001", "0"));
    let err = Location::from_response(200, &body).unwrap_err();
    assert_eq!(err, GeocodeError::InvalidCoordinate);
}

#[test]
fn out_of_range_longitude_is_invalid_coordinate() {
    let body = format!("[{}]", candidate("0", "-180.0000001"));
    let err = Location::from_response(200, &body).unwrap_err();
    assert_eq!(err, GeocodeError::InvalidCoordinate);
}

#[test]
fn error_status_is_reported_with_its_code() {
    let body = format!("[{}]", candidate("1", "2"));
    let err = Location::from_response(404, &body).unwrap_err();
    assert_eq!(err, GeocodeError::HttpStatus(404));
    let err = Location::from_response(500, "").unwrap_err();
    assert_eq!(err, GeocodeError::HttpStatus(500));
}

#[test]
fn invalid_json_body_is_decode_error() {
    let err = Location::from_response(200, "not json at all").unwrap_err();
    assert_eq!(err, GeocodeError::DecodeError);
}

#[test]
fn missing_candidate_field_is_decode_error() {
    let body = format!("[{}]", candidate("1", "2")).replace("\"osm_type\":\"relation\",", "");
    let err = Location::from_response(200, &body).unwrap_err();
    assert_eq!(err, GeocodeError::DecodeError);
}

#[test]
fn non_string_bounding_box_entry_is_decode_error() {
    let body = format!("[{}]", candidate("1", "2")).replace("\"48.8\"", "48.8");
    let err = Location::from_response(200, &body).unwrap_err();
    assert_eq!(err, GeocodeError::DecodeError);
}

#[test]
fn non_array_body_is_decode_error() {
    let body = candidate("1", "2");
    let err = Location::from_response(200, &body).unwrap_err();
    assert_eq!(err, GeocodeError::DecodeError);
}

#[test]
fn second_bad_candidate_is_decode_error() {
    let body = format!(
        "[{},{}]",
        candidate("1", "2"),
        "{\"place_id\":1}"
    );
    let err = Location::from_response(200, &body).unwrap_err();
    assert_eq!(err, GeocodeError::DecodeError);
}

#[test]
fn coordinate_parsing_is_exact() {
    assert_eq!(parse_coordinate_e7("48.8566", 90), Some(488_566_000));
    assert_eq!(parse_coordinate_e7("-90", 90), Some(-900_000_000));
    assert_eq!(parse_coordinate_e7("90", 90), Some(900_000_000));
    assert_eq!(parse_coordinate_e7("0", 90), Some(0));
    assert_eq!(parse_coordinate_e7("180", 180), Some(1_800_000_000));
    assert_eq!(parse_coordinate_e7("12.34567899", 90), Some(123_456_789));
    assert_eq!(parse_coordinate_e7(".5", 90), Some(5_000_000));
    assert_eq!(parse_coordinate_e7("5.", 90), Some(50_000_000));
    assert_eq!(parse_coordinate_e7("-0.0000001", 90), Some(-1));
}

#[test]
fn coordinate_parsing_rejects_bad_text() {
    assert_eq!(parse_coordinate_e7("", 90), None);
    assert_eq!(parse_coordinate_e7("-", 90), None);
    assert_eq!(parse_coordinate_e7(".", 90), None);
    assert_eq!(parse_coordinate_e7("-.", 90), None);
    assert_eq!(parse_coordinate_e7("1e5", 90), None);
    assert_eq!(parse_coordinate_e7("1.2.3", 90), None);
    assert_eq!(parse_coordinate_e7("--1", 90), None);
    assert_eq!(parse_coordinate_e7("+1", 90), None);
    assert_eq!(parse_coordinate_e7("abc", 90), None);
    assert_eq!(parse_coordinate_e7("90.0000001", 90), None);
    assert_eq!(parse_coordinate_e7("91", 90), None);
    assert_eq!(parse_coordinate_e7("99999999999999999999", 90), None);
}

#[test]
fn query_carries_required_and_optional_parameters() {
    let params = build_query("Paris", "France", &None, &None);
    assert_eq!(
        params,
        vec![
            (String::from("city"), String::from("Paris")),
            (String::from("country"), String::from("France")),
            (String::from("format"), String::from("jsonv2")),
        ]
    );
    let params = build_query(
        "New York",
        "USA",
        &Some(String::from("NY")),
        &Some(String::from("10001")),
    );
    assert_eq!(
        params,
        vec![
            (String::from("city"), String::from("New York")),
            (String::from("country"), String::from("USA")),
            (String::from("format"), String::from("jsonv2")),
            (String::from("state"), String::from("NY")),
            (String::from("postalcode"), String::from("10001")),
        ]
    );
}
