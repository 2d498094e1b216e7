//! Keyboard shortcuts: modifier keys that can be bound on their own, and what
//! the shortcuts pressed in one frame make the workspaces do.

use vstd::prelude::*;

verus! {

/// A modifier key, bound on its own to an action that lasts while it is held.
#[derive(Debug, Clone, Copy, PartialEq, Eq, Structural, Hash)]
pub enum ModifierKey {
    Shift,
    Alt,
    Control,
    Command,
}

/// The name the shortcut settings show for a modifier key.
pub open spec fn modifier_label(m: ModifierKey) -> Seq<char> {
    match m {
        ModifierKey::Shift => "Shift"@,
        ModifierKey::Alt => "Alt / Option"@,
        ModifierKey::Control => "Ctrl"@,
        ModifierKey::Command => "Command"@,
    }
}

impl ModifierKey {
    /// The name the shortcut settings show for this key.
    pub fn label(self) -> (s: &'static str)
        ensures
            s@ == modifier_label(self),
    {
        match self {
            ModifierKey::Shift => "Shift",
            ModifierKey::Alt => "Alt / Option",
            ModifierKey::Control => "Ctrl",
            ModifierKey::Command => "Command",
        }
    }
}

/// The tool the crop workspace uses for pointer drags.
#[derive(Debug, Clone, Copy, PartialEq, Eq, Structural)]
pub enum CropTool {
    SelectMove,
    Draw,
}

/// The tool the sprite workspace uses for pointer drags.
#[derive(Debug, Clone, Copy, PartialEq, Eq, Structural)]
pub enum SpriteTool {
    Erase,
    Restore,
    PickColor,
}

/// An action of the whole application.
#[derive(Debug, Clone, Copy, PartialEq, Eq, Structural)]
pub enum AppAction {
    SaveProjectAs,
    SaveProject,
    OpenProject,
    NewProject,
    ShowAssets,
    ShowThemes,
}

/// Which application shortcuts were pressed in one frame.
pub struct AppKeys {
    pub save_project_as: bool,
    pub save_project: bool,
    pub open_project: bool,
    pub new_project: bool,
    pub assets_tab: bool,
    pub themes_tab: bool,
}

/// The one application action a frame's keys start: the first pressed in
/// the order save as, save, open, new, Assets tab, Themes tab. Save as comes
/// before save because its default key is save's with Shift added.
pub open spec fn app_action_for(keys: AppKeys) -> Option<AppAction> {
    if keys.save_project_as {
        Some(AppAction::SaveProjectAs)
    } else if keys.save_project {
        Some(AppAction::SaveProject)
    } else if keys.open_project {
        Some(AppAction::OpenProject)
    } else if keys.new_project {
        Some(AppAction::NewProject)
    } else if keys.assets_tab {
        Some(AppAction::ShowAssets)
    } else if keys.themes_tab {
        Some(AppAction::ShowThemes)
    } else {
        None
    }
}

/// The application action for one frame's keys; see `app_action_for`.
pub fn app_action(keys: &AppKeys) -> (action: Option<AppAction>)
    ensures
        action == app_action_for(*keys),
{
    if keys.save_project_as {
        Some(AppAction::SaveProjectAs)
    } else if keys.save_project {
        Some(AppAction::SaveProject)
    } else if keys.open_project {
        Some(AppAction::OpenProject)
    } else if keys.new_project {
        Some(AppAction::NewProject)
    } else if keys.assets_tab {
        Some(AppAction::ShowAssets)
    } else if keys.themes_tab {
        Some(AppAction::ShowThemes)
    } else {
        None
    }
}

/// `a - b` for two flags: -1, 0 or 1.
pub open spec fn flag_difference(a: bool, b: bool) -> i8 {
    if a && !b {
        1i8
    } else if b && !a {
        -1i8
    } else {
        0i8
    }
}

fn difference(a: bool, b: bool) -> (d: i8)
    ensures
        d == flag_difference(a, b),
{
    if a && !b {
        1
    } else if b && !a {
        -1
    } else {
        0
    }
}

/// Which crop-workspace shortcuts were pressed in one frame, each already
/// combined with its alternate binding.
pub struct CropKeys {
    pub delete: bool,
    pub draw_tool: bool,
    pub select_tool: bool,
    pub fit: bool,
    pub extract: bool,
    pub copy: bool,
    pub cancel: bool,
    pub pan_left: bool,
    pub pan_right: bool,
    pub pan_up: bool,
    pub pan_down: bool,
    pub move_left: bool,
    pub move_right: bool,
    pub move_up: bool,
    pub move_down: bool,
    pub resize_left: bool,
    pub resize_right: bool,
    pub resize_up: bool,
    pub resize_down: bool,
}

/// A keyboard nudge of the selected crop: a resize when `resize` is set, a
/// move otherwise, in the directions set.
#[derive(Debug, Clone, Copy, PartialEq, Eq, Structural)]
pub struct CropNudge {
    pub resize: bool,
    pub left: bool,
    pub right: bool,
    pub up: bool,
    pub down: bool,
}

/// What the crop workspace does for one frame's keys, in this order: delete
/// the selected crop, switch tool, fit the view, extract the selected crop,
/// copy it, cancel the drag in progress, pan by the given steps (right and
/// down positive), and nudge the selected crop.
#[derive(Debug, Clone, Copy, PartialEq, Eq, Structural)]
pub struct CropKeyPlan {
    pub delete: bool,
    pub tool: Option<CropTool>,
    pub fit: bool,
    pub extract: bool,
    pub copy: bool,
    pub cancel: bool,
    pub pan_x: i8,
    pub pan_y: i8,
    pub nudge: Option<CropNudge>,
}

/// The plan that does nothing.
pub open spec fn idle_crop_plan() -> CropKeyPlan {
    CropKeyPlan {
        delete: false,
        tool: None,
        fit: false,
        extract: false,
        copy: false,
        cancel: false,
        pan_x: 0,
        pan_y: 0,
        nudge: None,
    }
}

/// The tool the crop keys choose: select/move wins over draw.
pub open spec fn chosen_crop_tool(keys: CropKeys) -> Option<CropTool> {
    if keys.select_tool {
        Some(CropTool::SelectMove)
    } else if keys.draw_tool {
        Some(CropTool::Draw)
    } else {
        None
    }
}

/// The nudge the crop keys ask for: any resize key makes it a resize, and a
/// resize key also counts as its direction.
pub open spec fn chosen_nudge(keys: CropKeys) -> Option<CropNudge> {
    let resize = keys.resize_left || keys.resize_right || keys.resize_up || keys.resize_down;
    let left = keys.resize_left || keys.move_left;
    let right = keys.resize_right || keys.move_right;
    let up = keys.resize_up || keys.move_up;
    let down = keys.resize_down || keys.move_down;
    if left || right || up || down {
        Some(CropNudge { resize, left, right, up, down })
    } else {
        None
    }
}

/// The crop workspace's response to one frame's keys. Deleting the selected
/// crop ends the frame's crop actions, and so does extracting it (after a
/// tool switch and a fit).
pub open spec fn crop_plan_for(keys: CropKeys) -> CropKeyPlan {
    if keys.delete {
        CropKeyPlan { delete: true, ..idle_crop_plan() }
    } else if keys.extract {
        CropKeyPlan { tool: chosen_crop_tool(keys), fit: keys.fit, extract: true, ..idle_crop_plan() }
    } else {
        CropKeyPlan {
            delete: false,
            tool: chosen_crop_tool(keys),
            fit: keys.fit,
            extract: false,
            copy: keys.copy,
            cancel: keys.cancel,
            pan_x: flag_difference(keys.pan_right, keys.pan_left),
            pan_y: flag_difference(keys.pan_down, keys.pan_up),
            nudge: chosen_nudge(keys),
        }
    }
}

/// Plans the crop workspace's response to one frame's keys; see
/// `crop_plan_for`.
pub fn crop_key_plan(keys: &CropKeys) -> (plan: CropKeyPlan)
    ensures
        plan == crop_plan_for(*keys),
{
    let mut plan = CropKeyPlan {
        delete: false,
        tool: None,
        fit: false,
        extract: false,
        copy: false,
        cancel: false,
        pan_x: 0,
        pan_y: 0,
        nudge: None,
    };
    if keys.delete {
        plan.delete = true;
        return plan;
    }
    if keys.draw_tool {
        plan.tool = Some(CropTool::Draw);
    }
    if keys.select_tool {
        plan.tool = Some(CropTool::SelectMove);
    }
    plan.fit = keys.fit;
    if keys.extract {
        plan.extract = true;
        return plan;
    }
    plan.copy = keys.copy;
    plan.cancel = keys.cancel;
    plan.pan_x = difference(keys.pan_right, keys.pan_left);
    plan.pan_y = difference(keys.pan_down, keys.pan_up);
    let resize = keys.resize_left || keys.resize_right || keys.resize_up || keys.resize_down;
    let left = keys.resize_left || keys.move_left;
    let right = keys.resize_right || keys.move_right;
    let up = keys.resize_up || keys.move_up;
    let down = keys.resize_down || keys.move_down;
    if left || right || up || down {
        plan.nudge = Some(CropNudge { resize, left, right, up, down });
    }
    plan
}

/// A step through a sprite's edit history.
#[derive(Debug, Clone, Copy, PartialEq, Eq, Structural)]
pub enum HistoryStep {
    Undo,
    Redo,
}

/// Which sprite-workspace shortcuts were pressed in one frame, each already
/// combined with its alternate binding.
pub struct SpriteKeys {
    pub delete: bool,
    pub pan_left: bool,
    pub pan_right: bool,
    pub pan_up: bool,
    pub pan_down: bool,
    pub erase: bool,
    pub restore: bool,
    pub fit: bool,
    pub brush_smaller: bool,
    pub brush_larger: bool,
    pub undo: bool,
    pub redo: bool,
}

/// What the sprite workspace does for one frame's keys, in this order:
/// delete the selected sprite, pan by the given steps, switch tool, fit the
/// view, shrink then grow the active brush, and step through the history.
#[derive(Debug, Clone, Copy, PartialEq, Eq, Structural)]
pub struct SpriteKeyPlan {
    pub delete: bool,
    pub pan_x: i8,
    pub pan_y: i8,
    pub tool: Option<SpriteTool>,
    pub fit: bool,
    pub brush_smaller: bool,
    pub brush_larger: bool,
    pub history: Option<HistoryStep>,
}

/// The sprite workspace's response to one frame's keys. Deleting the
/// selected sprite ends the frame's sprite actions; restore wins over erase,
/// and redo over undo (their default keys differ only by Shift).
pub open spec fn sprite_plan_for(keys: SpriteKeys) -> SpriteKeyPlan {
    if keys.delete {
        SpriteKeyPlan {
            delete: true,
            pan_x: 0,
            pan_y: 0,
            tool: None,
            fit: false,
            brush_smaller: false,
            brush_larger: false,
            history: None,
        }
    } else {
        SpriteKeyPlan {
            delete: false,
            pan_x: flag_difference(keys.pan_right, keys.pan_left),
            pan_y: flag_difference(keys.pan_down, keys.pan_up),
            tool: if keys.restore {
                Some(SpriteTool::Restore)
            } else if keys.erase {
                Some(SpriteTool::Erase)
            } else {
                None
            },
            fit: keys.fit,
            brush_smaller: keys.brush_smaller,
            brush_larger: keys.brush_larger,
            history: if keys.redo {
                Some(HistoryStep::Redo)
            } else if keys.undo {
                Some(HistoryStep::Undo)
            } else {
                None
            },
        }
    }
}

/// Plans the sprite workspace's response to one frame's keys; see
/// `sprite_plan_for`.
pub fn sprite_key_plan(keys: &SpriteKeys) -> (plan: SpriteKeyPlan)
    ensures
        plan == sprite_plan_for(*keys),
{
    if keys.delete {
        return SpriteKeyPlan {
            delete: true,
            pan_x: 0,
            pan_y: 0,
            tool: None,
            fit: false,
            brush_smaller: false,
            brush_larger: false,
            history: None,
        };
    }
    let tool = if keys.restore {
        Some(SpriteTool::Restore)
    } else if keys.erase {
        Some(SpriteTool::Erase)
    } else {
        None
    };
    let history = if keys.redo {
        Some(HistoryStep::Redo)
    } else if keys.undo {
        Some(HistoryStep::Undo)
    } else {
        None
    };
    SpriteKeyPlan {
        delete: false,
        pan_x: difference(keys.pan_right, keys.pan_left),
        pan_y: difference(keys.pan_down, keys.pan_up),
        tool,
        fit: keys.fit,
        brush_smaller: keys.brush_smaller,
        brush_larger: keys.brush_larger,
        history,
    }
}

/// 1 for a pressed key, 0 otherwise.
pub open spec fn key_count(pressed: bool) -> int {
    if pressed {
        1
    } else {
        0
    }
}

/// Each sprite shortcut does what it names. The delete key deletes the
/// selected sprite and nothing else happens in that frame. Otherwise: the
/// redo key redoes; the undo key undoes, unless redo is pressed too; with
/// neither there is no step through the history; the restore key picks the
/// restore tool, the erase key the erase tool unless restore is pressed too;
/// the fit and brush keys are passed on; each pair of pan keys pans by one
/// step towards the pressed one, and not at all when both or neither are
/// pressed.
pub proof fn law_sprite_keys_do_what_they_name(keys: SpriteKeys)
    ensures
        keys.delete ==> {
            let plan = sprite_plan_for(keys);
            &&& plan.delete
            &&& plan.history is None
            &&& plan.tool is None
            &&& plan.pan_x == 0 && plan.pan_y == 0
            &&& !plan.fit && !plan.brush_smaller && !plan.brush_larger
        },
        !keys.delete ==> {
            let plan = sprite_plan_for(keys);
            &&& !plan.delete
            &&& (plan.history == Some(HistoryStep::Redo) <==> keys.redo)
            &&& (plan.history == Some(HistoryStep::Undo) <==> keys.undo && !keys.redo)
            &&& (plan.history is None <==> !keys.undo && !keys.redo)
            &&& (plan.tool == Some(SpriteTool::Restore) <==> keys.restore)
            &&& (plan.tool == Some(SpriteTool::Erase) <==> keys.erase && !keys.restore)
            &&& (plan.tool is None <==> !keys.erase && !keys.restore)
            &&& plan.fit == keys.fit
            &&& plan.brush_smaller == keys.brush_smaller
            &&& plan.brush_larger == keys.brush_larger
            &&& plan.pan_x == key_count(keys.pan_right) - key_count(keys.pan_left)
            &&& plan.pan_y == key_count(keys.pan_down) - key_count(keys.pan_up)
        },
{
}

/// Each crop shortcut does what it names. The delete key deletes the
/// selected crop and nothing else happens in that frame. Otherwise the
/// select key picks the select/move tool, the draw key the draw tool unless
/// select is pressed too, and the fit key fits the view; the extract key
/// then extracts the selected crop and ends the frame. Without it: copy and
/// cancel are passed on, each pair of pan keys pans by one step towards the
/// pressed one, and the selected crop is nudged exactly when a move or
/// resize key is pressed: left when a left key is pressed, and so on, as a
/// resize when any resize key is pressed and as a move otherwise.
pub proof fn law_crop_keys_do_what_they_name(keys: CropKeys)
    ensures
        keys.delete ==> crop_plan_for(keys) == (CropKeyPlan {
            delete: true,
            tool: None,
            fit: false,
            extract: false,
            copy: false,
            cancel: false,
            pan_x: 0,
            pan_y: 0,
            nudge: None,
        }),
        !keys.delete ==> {
            let plan = crop_plan_for(keys);
            &&& !plan.delete
            &&& (plan.tool == Some(CropTool::SelectMove) <==> keys.select_tool)
            &&& (plan.tool == Some(CropTool::Draw) <==> keys.draw_tool && !keys.select_tool)
            &&& (plan.tool is None <==> !keys.draw_tool && !keys.select_tool)
            &&& plan.fit == keys.fit
            &&& plan.extract == keys.extract
        },
        !keys.delete && keys.extract ==> {
            let plan = crop_plan_for(keys);
            &&& !plan.copy && !plan.cancel
            &&& plan.pan_x == 0 && plan.pan_y == 0
            &&& plan.nudge is None
        },
        !keys.delete && !keys.extract ==> {
            let plan = crop_plan_for(keys);
            let left = keys.move_left || keys.resize_left;
            let right = keys.move_right || keys.resize_right;
            let up = keys.move_up || keys.resize_up;
            let down = keys.move_down || keys.resize_down;
            &&& plan.copy == keys.copy
            &&& plan.cancel == keys.cancel
            &&& plan.pan_x == key_count(keys.pan_right) - key_count(keys.pan_left)
            &&& plan.pan_y == key_count(keys.pan_down) - key_count(keys.pan_up)
            &&& (plan.nudge is Some <==> left || right || up || down)
            &&& plan.nudge matches Some(n) ==> {
                &&& n.left == left
                &&& n.right == right
                &&& n.up == up
                &&& n.down == down
                &&& n.resize == (keys.resize_left || keys.resize_right || keys.resize_up
                    || keys.resize_down)
            }
        },
{
}

/// Each application shortcut starts its own action, and only one action
/// starts per frame: the first pressed of save as, save, open, new, the
/// Assets tab and the Themes tab. No key, no action.
pub proof fn law_app_keys_start_their_action(keys: AppKeys)
    ensures
        keys.save_project_as ==> app_action_for(keys) == Some(AppAction::SaveProjectAs),
        !keys.save_project_as && keys.save_project ==> app_action_for(keys) == Some(AppAction::SaveProject),
        !keys.save_project_as && !keys.save_project && keys.open_project ==> app_action_for(keys) == Some(
            AppAction::OpenProject,
        ),
        !keys.save_project_as && !keys.save_project && !keys.open_project && keys.new_project
            ==> app_action_for(keys) == Some(AppAction::NewProject),
        !keys.save_project_as && !keys.save_project && !keys.open_project && !keys.new_project
            && keys.assets_tab ==> app_action_for(keys) == Some(AppAction::ShowAssets),
        !keys.save_project_as && !keys.save_project && !keys.open_project && !keys.new_project
            && !keys.assets_tab && keys.themes_tab ==> app_action_for(keys) == Some(AppAction::ShowThemes),
        app_action_for(keys) is None <==> !(keys.save_project_as || keys.save_project || keys.open_project
            || keys.new_project || keys.assets_tab || keys.themes_tab),
{
}

} // verus!
