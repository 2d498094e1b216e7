use wonderdraft_asset_studio::naming::{
    humanize, is_space, safe_category_path, sanitize_component, sanitize_file_stem,
    sanitize_pack_name,
};

#[test]
fn file_stem_replaces_unsafe_characters() {
    assert_eq!(sanitize_file_stem("Old Tower (v2).png"), "Old_Tower__v2__png");
    assert_eq!(sanitize_file_stem("castle-1_a"), "castle-1_a");
}

#[test]
fn file_stem_trims_underscores_at_both_ends() {
    assert_eq!(sanitize_file_stem("  tree  "), "tree");
    assert_eq!(sanitize_file_stem("__a__"), "a");
}

#[test]
fn empty_file_stem_falls_back_to_sprite() {
    assert_eq!(sanitize_file_stem(""), "sprite");
    assert_eq!(sanitize_file_stem("..."), "sprite");
    assert_eq!(sanitize_file_stem("/"), "sprite");
}

#[test]
fn file_stem_keeps_non_ascii_letters() {
    assert_eq!(sanitize_file_stem("Bäume"), "Bäume");
}

#[test]
fn sanitizing_a_file_stem_twice_changes_nothing() {
    for input in ["a b.c", "..x..", "", "Tree #4", "é/è"] {
        let once = sanitize_file_stem(input);
        assert_eq!(sanitize_file_stem(&once), once);
    }
}

#[test]
fn component_keeps_spaces_inside_and_trims_dots_and_spaces() {
    assert_eq!(sanitize_component(" My Pack ", "x"), "My Pack");
    assert_eq!(sanitize_component("v1.2", "x"), "v1_2");
    assert_eq!(sanitize_component("a:b", "x"), "a_b");
    assert_eq!(sanitize_component("   ", "fallback"), "fallback");
}

#[test]
fn pack_name_falls_back_to_default() {
    assert_eq!(sanitize_pack_name(""), "MyFantasyPack");
    assert_eq!(sanitize_pack_name("Dwarven Halls"), "Dwarven Halls");
    let once = sanitize_pack_name("x/y. ");
    assert_eq!(sanitize_pack_name(&once), once);
}

#[test]
fn category_is_split_on_both_slashes() {
    assert_eq!(safe_category_path("Buildings/Castles\\Ruins"), vec!["Buildings", "Castles", "Ruins"]);
    assert_eq!(safe_category_path("a//b"), vec!["a", "b"]);
}

#[test]
fn category_cannot_climb_out_of_its_folder() {
    assert_eq!(safe_category_path("../../etc"), vec!["__", "__", "etc"]);
    assert_eq!(safe_category_path(".."), vec!["__"]);
}

#[test]
fn empty_category_is_uncategorized() {
    assert_eq!(safe_category_path(""), vec!["Uncategorized"]);
    assert_eq!(safe_category_path("/ /"), vec!["Uncategorized"]);
}

#[test]
fn humanize_splits_words() {
    assert_eq!(humanize("old_tower-ruin"), "old tower ruin");
    assert_eq!(humanize("OldTower"), "Old Tower");
    assert_eq!(humanize("__a__b__"), "a b");
    assert_eq!(humanize("ABC"), "ABC");
    assert_eq!(humanize(""), "");
}

#[test]
fn space_characters() {
    assert!(is_space(' '));
    assert!(is_space('\t'));
    assert!(!is_space('_'));
}
