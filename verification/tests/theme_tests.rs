use map_poster::theme::Theme;
use map_poster::theme::ThemeError;

fn full_theme_json() -> String {
    String::from(
        "{\
        \"name\":\"Dark\",\
        \"description\":\"A dark palette\",\
        \"bg\":\"#101010\",\
        \"text\":\"#f0f0f0\",\
        \"gradient_color\":\"#202020\",\
        \"water\":\"#123456\",\
        \"parks\":\"#234567\",\
        \"road_motorway\":\"#345678\",\
        \"road_primary\":\"#456789\",\
        \"road_secondary\":\"#56789a\",\
        \"road_tertiary\":\"#6789ab\",\
        \"road_residential\":\"#789abc\",\
        \"road_default\":\"#89abcd\"\
        }",
    )
}

#[test]
fn loads_complete_theme_with_exact_fields() {
    let theme = Theme::get_by_name(&Some(full_theme_json())).unwrap();
    assert_eq!(theme.name, "Dark");
    assert_eq!(theme.description, "A dark palette");
    assert_eq!(theme.bg, "#101010");
    assert_eq!(theme.text, "#f0f0f0");
    assert_eq!(theme.gradient_color, "#202020");
    assert_eq!(theme.water, "#123456");
    assert_eq!(theme.parks, "#234567");
    assert_eq!(theme.road_motorway, "#345678");
    assert_eq!(theme.road_primary, "#456789");
    assert_eq!(theme.road_secondary, "#56789a");
    assert_eq!(theme.road_tertiary, "#6789ab");
    assert_eq!(theme.road_residential, "#789abc");
    assert_eq!(theme.road_default, "#89abcd");
}

#[test]
fn missing_water_field_names_it() {
    let broken = full_theme_json().replace("\"water\":\"#123456\",", "");
    let err = Theme::get_by_name(&Some(broken)).unwrap_err();
    assert_eq!(err, ThemeError::InvalidSchema(String::from("water")));
}

#[test]
fn wrong_type_field_names_it() {
    let broken = full_theme_json().replace("\"#123456\"", "5");
    let err = Theme::get_by_name(&Some(broken)).unwrap_err();
    assert_eq!(err, ThemeError::InvalidSchema(String::from("water")));
}

#[test]
fn unreadable_file_is_not_found() {
    let err = Theme::get_by_name(&None).unwrap_err();
    assert_eq!(err, ThemeError::NotFound);
}

#[test]
fn invalid_json_is_malformed() {
    let err = Theme::get_by_name(&Some(String::from("{not json"))).unwrap_err();
    assert_eq!(err, ThemeError::MalformedJson);
}

#[test]
fn empty_content_is_malformed() {
    let err = Theme::get_by_name(&Some(String::new())).unwrap_err();
    assert_eq!(err, ThemeError::MalformedJson);
}

#[test]
fn non_object_document_misses_first_field() {
    let err = Theme::get_by_name(&Some(String::from("[1,2,3]"))).unwrap_err();
    assert_eq!(err, ThemeError::InvalidSchema(String::from("name")));
}

#[test]
fn lists_only_theme_files() {
    let entries = vec![
        String::from("a.json"),
        String::from("b.json"),
        String::from("notes.txt"),
    ];
    let names = Theme::get_available_names(&entries);
    assert_eq!(names, vec![String::from("a"), String::from("b")]);
}

#[test]
fn listing_is_order_independent() {
    let one = vec![
        String::from("b.json"),
        String::from("a.json"),
        String::from("notes.txt"),
    ];
    let two = vec![
        String::from("notes.txt"),
        String::from("a.json"),
        String::from("b.json"),
    ];
    let mut names_one = Theme::get_available_names(&one);
    let mut names_two = Theme::get_available_names(&two);
    names_one.sort();
    names_two.sort();
    assert_eq!(names_one, names_two);
}

#[test]
fn listing_nothing_yields_nothing() {
    let names = Theme::get_available_names(&Vec::new());
    assert!(names.is_empty());
}

#[test]
fn listing_keeps_unicode_stems() {
    let entries = vec![String::from("caf\u{e9}.json"), String::from("json")];
    let names = Theme::get_available_names(&entries);
    assert_eq!(names, vec![String::from("caf\u{e9}")]);
}

#[test]
fn theme_path_is_under_directory() {
    let p = Theme::theme_file_path("themes", "dark");
    assert_eq!(p, "themes/dark.json");
}
