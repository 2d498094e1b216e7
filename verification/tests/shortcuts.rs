use wonderdraft_asset_studio::shortcuts::{
    app_action, crop_key_plan, sprite_key_plan, AppAction, AppKeys, CropKeys, CropNudge, CropTool,
    HistoryStep, SpriteKeys, SpriteTool,
};

fn no_app_keys() -> AppKeys {
    AppKeys {
        save_project_as: false,
        save_project: false,
        open_project: false,
        new_project: false,
        assets_tab: false,
        themes_tab: false,
    }
}

fn no_crop_keys() -> CropKeys {
    CropKeys {
        delete: false,
        draw_tool: false,
        select_tool: false,
        fit: false,
        extract: false,
        copy: false,
        cancel: false,
        pan_left: false,
        pan_right: false,
        pan_up: false,
        pan_down: false,
        move_left: false,
        move_right: false,
        move_up: false,
        move_down: false,
        resize_left: false,
        resize_right: false,
        resize_up: false,
        resize_down: false,
    }
}

fn no_sprite_keys() -> SpriteKeys {
    SpriteKeys {
        delete: false,
        pan_left: false,
        pan_right: false,
        pan_up: false,
        pan_down: false,
        erase: false,
        restore: false,
        fit: false,
        brush_smaller: false,
        brush_larger: false,
        undo: false,
        redo: false,
    }
}

#[test]
fn save_as_wins_over_save() {
    let keys = AppKeys { save_project_as: true, save_project: true, ..no_app_keys() };
    assert_eq!(app_action(&keys), Some(AppAction::SaveProjectAs));
    let keys = AppKeys { themes_tab: true, new_project: true, ..no_app_keys() };
    assert_eq!(app_action(&keys), Some(AppAction::NewProject));
    assert_eq!(app_action(&no_app_keys()), None);
}

#[test]
fn deleting_a_crop_ends_the_frame() {
    let keys = CropKeys { delete: true, copy: true, move_left: true, ..no_crop_keys() };
    let plan = crop_key_plan(&keys);
    assert!(plan.delete);
    assert!(!plan.copy);
    assert_eq!(plan.nudge, None);
}

#[test]
fn extracting_a_crop_keeps_tool_and_fit_only() {
    let keys = CropKeys {
        extract: true,
        draw_tool: true,
        fit: true,
        copy: true,
        pan_left: true,
        ..no_crop_keys()
    };
    let plan = crop_key_plan(&keys);
    assert!(plan.extract && plan.fit);
    assert_eq!(plan.tool, Some(CropTool::Draw));
    assert!(!plan.copy);
    assert_eq!(plan.pan_x, 0);
}

#[test]
fn select_tool_wins_and_resize_keys_count_as_moves() {
    let keys = CropKeys {
        draw_tool: true,
        select_tool: true,
        resize_right: true,
        move_up: true,
        pan_left: true,
        pan_right: true,
        pan_down: true,
        ..no_crop_keys()
    };
    let plan = crop_key_plan(&keys);
    assert_eq!(plan.tool, Some(CropTool::SelectMove));
    assert_eq!((plan.pan_x, plan.pan_y), (0, 1));
    assert_eq!(
        plan.nudge,
        Some(CropNudge { resize: true, left: false, right: true, up: true, down: false })
    );
}

#[test]
fn no_direction_means_no_nudge() {
    let plan = crop_key_plan(&CropKeys { copy: true, cancel: true, ..no_crop_keys() });
    assert!(plan.copy && plan.cancel);
    assert_eq!(plan.nudge, None);
}

#[test]
fn redo_wins_over_undo_and_restore_over_erase() {
    let keys = SpriteKeys { undo: true, redo: true, erase: true, restore: true, ..no_sprite_keys() };
    let plan = sprite_key_plan(&keys);
    assert_eq!(plan.history, Some(HistoryStep::Redo));
    assert_eq!(plan.tool, Some(SpriteTool::Restore));
    let plan = sprite_key_plan(&SpriteKeys { undo: true, pan_up: true, ..no_sprite_keys() });
    assert_eq!(plan.history, Some(HistoryStep::Undo));
    assert_eq!(plan.pan_y, -1);
}

#[test]
fn deleting_a_sprite_ends_the_frame() {
    let keys = SpriteKeys { delete: true, undo: true, fit: true, ..no_sprite_keys() };
    let plan = sprite_key_plan(&keys);
    assert!(plan.delete);
    assert_eq!(plan.history, None);
    assert!(!plan.fit);
}
