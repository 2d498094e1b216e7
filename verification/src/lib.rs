//! Image preparation logic for Wonderdraft asset packs: pixel operations,
//! crop geometry, sprites cut from source images and their edit history, name
//! sanitising, export planning, project records and keyboard-shortcut plans.

pub mod pixels;
pub mod image_ops;
pub mod model;
pub mod crop_geometry;
pub mod text;
pub mod naming;
pub mod settings;
pub mod export;
pub mod sprites;
pub mod shortcuts;
pub mod project;
pub mod paths;
pub mod image_files;
