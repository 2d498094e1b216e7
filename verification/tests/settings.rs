use wonderdraft_asset_studio::settings::{
    check_settings, parse_custom_assets_directory, parse_quoted_value, SettingsError,
};

#[test]
fn parses_custom_asset_override() {
    let config = r#"
[Save]
last_directory="/maps"
custom_assets_directory="/home/test/Wonderdraft2"
"#;
    assert_eq!(
        parse_custom_assets_directory(config),
        Some("/home/test/Wonderdraft2".to_owned())
    );
}

#[test]
fn parses_escaped_path_characters() {
    assert_eq!(
        parse_quoted_value(r#""C:\\Users\\Map \"Maker\"""#),
        Some(r#"C:\Users\Map "Maker""#.to_owned())
    );
}

#[test]
fn unterminated_quote_gives_nothing() {
    assert_eq!(parse_quoted_value(r#""abc"#), None);
    assert_eq!(parse_quoted_value("abc"), None);
}

#[test]
fn text_before_the_opening_quote_is_skipped() {
    assert_eq!(parse_quoted_value(r#"x "y" z"#), Some("y".to_owned()));
    assert_eq!(parse_quoted_value(r#""""#), Some(String::new()));
}

#[test]
fn lone_backslash_is_kept() {
    assert_eq!(parse_quoted_value(r#""a\b""#), Some(r#"a\b"#.to_owned()));
}

#[test]
fn missing_key_gives_nothing() {
    assert_eq!(parse_custom_assets_directory("[Save]\nlast_directory=\"/maps\"\n"), None);
    assert_eq!(parse_custom_assets_directory(""), None);
}

#[test]
fn key_is_matched_after_trimming_and_byte_order_mark() {
    let config = "\u{feff}  custom_assets_directory  =  \"D:\\\\Assets\"  \r\n";
    assert_eq!(parse_custom_assets_directory(config), Some("D:\\Assets".to_owned()));
}

#[test]
fn first_matching_line_decides() {
    let config = "custom_assets_directory=unquoted\ncustom_assets_directory=\"/b\"\n";
    assert_eq!(parse_custom_assets_directory(config), None);
}

#[test]
fn value_may_hold_equals_signs() {
    let config = "custom_assets_directory=\"/a=b\"";
    assert_eq!(parse_custom_assets_directory(config), Some("/a=b".to_owned()));
}

#[test]
fn settings_need_a_pack_name() {
    assert_eq!(check_settings("  \t ", false, false), Err(SettingsError::EmptyPackName));
    assert_eq!(check_settings("", true, true), Err(SettingsError::EmptyPackName));
}

#[test]
fn exporting_without_asking_needs_a_folder() {
    assert_eq!(check_settings("Pack", true, false), Err(SettingsError::MissingExportDirectory));
    assert_eq!(check_settings("Pack", true, true), Ok("Pack".to_owned()));
}

#[test]
fn pack_name_is_trimmed() {
    assert_eq!(check_settings("  My Pack \n", false, false), Ok("My Pack".to_owned()));
}

fn escape(value: &str) -> String {
    value.replace('\\', "\\\\").replace('"', "\\\"")
}

#[test]
fn escaped_values_read_back() {
    for value in ["plain", r#"C:\Users\Map "Maker""#, r#"\"#, "", r#""""#] {
        let text = format!("prefix \"{}\" trailing \" text", escape(value));
        assert_eq!(parse_quoted_value(&text), Some(value.to_owned()));
    }
}
