use wonderdraft_asset_studio::paths::{
    display_name, install_root_components, install_root_for_selection, PathPart,
};

fn parts(path: &str) -> Vec<PathPart> {
    let mut out = Vec::new();
    if path.starts_with('/') {
        out.push(PathPart::Root("/".to_owned()));
    }
    for piece in path.split('/').filter(|p| !p.is_empty()) {
        out.push(match piece {
            "." => PathPart::Current,
            ".." => PathPart::Parent,
            name => PathPart::Name(name.to_owned()),
        });
    }
    out
}

#[test]
fn selecting_assets_folder_uses_its_parent_as_export_root() {
    assert_eq!(
        install_root_for_selection(&parts("/tmp/Wonderdraft/assets")),
        parts("/tmp/Wonderdraft")
    );
}

#[test]
fn selecting_another_folder_uses_it() {
    assert_eq!(install_root_for_selection(&parts("/tmp/Packs")), parts("/tmp/Packs"));
    assert_eq!(install_root_for_selection(&parts("assets")), parts(""));
    assert_eq!(install_root_for_selection(&parts("/tmp/assets/x")), parts("/tmp/assets/x"));
}

#[test]
fn absolute_custom_directory_takes_precedence() {
    let folder = parts("/home/u/.local/share/Wonderdraft");
    let custom = Some((parts("/data/Wonderdraft2/assets"), true));
    assert_eq!(install_root_components(&folder, custom), parts("/data/Wonderdraft2"));
}

#[test]
fn relative_custom_directory_is_taken_inside_the_folder() {
    let folder = parts("/home/u/Wonderdraft");
    let custom = Some((parts("extra/content"), false));
    assert_eq!(install_root_components(&folder, custom), parts("/home/u/Wonderdraft/extra/content"));
}

#[test]
fn without_custom_directory_the_folder_is_used() {
    assert_eq!(install_root_components(&parts("/w/assets"), None), parts("/w"));
    assert_eq!(install_root_components(&parts("/w"), None), parts("/w"));
}

#[test]
fn display_name_is_the_last_name() {
    assert_eq!(display_name(&parts("/maps/tower.png")), "tower.png");
    assert_eq!(display_name(&parts("/")), "Image");
    assert_eq!(display_name(&parts("/maps/..")), "Image");
    assert_eq!(display_name(&Vec::new()), "Image");
}
