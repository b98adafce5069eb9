use zgrcg::generator::Generator;
use zgrcg::input_actions::{
    action_modules, collect_actions, consts_file_content, have_keystrokes,
    invocations_file_content,
};
use zgrcg::layers::{has_usable_keys, layer_groups, layer_modules, layers_file_content};
use zgrcg::mod_file::mod_file_content;
use zgrcg::projectgodot::{InputSection, LayerNamesSection, ProjectGodot};
use zgrcg::scenes::{collect_scenes, path_before, scene_modules, SceneFile};
use zgrcg::sorting::sort_texts;

fn strings(v: &[&str]) -> Vec<String> {
    v.iter().map(|s| s.to_string()).collect()
}

fn scene(stem: &str, ancestors: &[&str], path: &str) -> SceneFile {
    SceneFile {
        stem: stem.to_string(),
        ancestors: strings(ancestors),
        path: path.to_string(),
    }
}

#[test]
fn module_list_skips_empty_names() {
    assert_eq!(
        mod_file_content(&strings(&["actions_consts", "", "layer_consts"])),
        "pub mod actions_consts;\npub mod layer_consts;\n"
    );
    assert_eq!(mod_file_content(&vec![]), "");
}

#[test]
fn module_names_follow_what_is_asked_for() {
    assert_eq!(
        action_modules(true, true),
        strings(&["actions_consts", "actions_invocations"])
    );
    assert_eq!(action_modules(false, true), strings(&["actions_invocations"]));
    assert_eq!(action_modules(false, false), strings(&[]));
    assert_eq!(scene_modules(true, true), strings(&["scene_consts", "scene_actions"]));
    assert_eq!(scene_modules(true, false), strings(&["scene_consts"]));
}

#[test]
fn scenes_get_names_and_resource_paths() {
    let files = vec![
        scene("Main", &["scenes", "gd"], "/p/gd/scenes/Main.tscn"),
        scene("LevelOne", &["scenes", "gd"], "/p/gd/scenes/LevelOne.tscn"),
        scene("Main", &["multiplayer", "scenes", "gd"], "/p/gd/scenes/multiplayer/Main.tscn"),
        scene("Main", &["multiplayer", "other"], "\\p\\gd\\other\\multiplayer\\Main.tscn"),
    ];
    let scenes = collect_scenes(&files, "/p/gd");
    assert_eq!(
        scenes,
        vec![
            ("LevelOne".to_string(), "res://scenes/LevelOne.tscn".to_string()),
            ("Main".to_string(), "res://scenes/Main.tscn".to_string()),
            (
                "othermultiplayerMain".to_string(),
                "res://other/multiplayer/Main.tscn".to_string()
            ),
            (
                "multiplayerMain".to_string(),
                "res://scenes/multiplayer/Main.tscn".to_string()
            ),
        ]
    );
}

#[test]
fn scene_without_directories_above_takes_the_place_of_its_namesake() {
    let files = vec![
        scene("Main", &[], "a/Main.tscn"),
        scene("Main", &[], "b/Main.tscn"),
    ];
    assert_eq!(
        collect_scenes(&files, "zzz"),
        vec![("Main".to_string(), "b/Main.tscn".to_string())]
    );
    assert_eq!(collect_scenes(&vec![], "x"), vec![]);
}

#[test]
fn sorting_is_the_standard_sort() {
    let samples: Vec<Vec<&str>> = vec![
        vec![],
        vec!["a"],
        vec!["b/x", "a/x", "c", "a", "b/a/c", "a/y", "a", "B", "", "é", "ab"],
        vec!["z", "y", "x", "w"],
        vec!["res://b", "res://a/b", "res://a", "res://a/a"],
    ];
    for sample in samples {
        let mut expected: Vec<String> = strings(&sample);
        expected.sort();
        assert_eq!(sort_texts(strings(&sample)), expected);
    }
}

#[test]
fn paths_with_fewer_directories_come_first() {
    assert!(path_before("b", "a/a"));
    assert!(!path_before("a/a", "b"));
    assert!(path_before("a/a", "a/b"));
    assert!(path_before("a/a", "a/a"));
    assert!(!path_before("a/b", "a/a"));
}

const PROJECT: &str = r#"config_version=5

[input]

move_left={
"deadzone": 0.5,
"events": [Object(InputEventKey,"resource_local_to_scene":false,"keycode":0,"physical_keycode":65,"unicode":97,"script":null)
]
}
Fire={
"deadzone": 0.5,
"events": [Object(InputEventMouseButton,"button_index":1,"double_click":false,"script":null), Object(InputEventKey,"keycode":74,"ctrl_pressed":1,"script":null)]
}

[layer_names]

2d_render/layer_1="ghosts"
2d_physics/layer_2="non colliding"
2d_physics/layer_1="collisions"
not a layer="ignored"
"#;

#[test]
fn actions_are_collected_in_the_order_of_their_names() {
    let project = ProjectGodot::parse_from_str(PROJECT);
    let actions = collect_actions(project.input.as_ref().unwrap());
    assert_eq!(
        actions,
        vec![
            ("Fire".to_string(), strings(&["left_click", "ctrl+J"])),
            ("move_left".to_string(), strings(&["A"])),
        ]
    );
    assert!(have_keystrokes(&actions));
    assert_eq!(
        consts_file_content(&actions),
        "#![allow(dead_code)]\n#![allow(non_snake_case)]\nuse godot::builtin::StringName;\n\n/// Maps to: `left_click` or `ctrl+J`\npub fn FIRE() -> StringName { StringName::from(\"Fire\") }\n/// Maps to: `A`\npub fn MOVE_LEFT() -> StringName { StringName::from(\"move_left\") }"
    );
    assert_eq!(
        invocations_file_content(&actions),
        "#![allow(dead_code)]\nuse godot::classes::Input;\n\npub trait InputActionInvocations {\n    /// Returns true while `left_click` or `ctrl+J` is pressed\n    fn is_fire_pressed(&self) -> bool;\n    /// Returns true when `left_click` or `ctrl+J` is just pressed\n    fn is_fire_just_pressed(&self) -> bool;\n    /// Returns true when `left_click` or `ctrl+J` is just released\n    fn is_fire_just_released(&self) -> bool;\n\n    /// Returns true while `A` is pressed\n    fn is_move_left_pressed(&self) -> bool;\n    /// Returns true when `A` is just pressed\n    fn is_move_left_just_pressed(&self) -> bool;\n    /// Returns true when `A` is just released\n    fn is_move_left_just_released(&self) -> bool;\n}\n\nimpl InputActionInvocations for Input {\n    fn is_fire_pressed(&self) -> bool { self.is_action_pressed(\"Fire\") }\n    fn is_fire_just_pressed(&self) -> bool { self.is_action_just_pressed(\"Fire\") }\n    fn is_fire_just_released(&self) -> bool { self.is_action_just_released(\"Fire\") }\n\n    fn is_move_left_pressed(&self) -> bool { self.is_action_pressed(\"move_left\") }\n    fn is_move_left_just_pressed(&self) -> bool { self.is_action_just_pressed(\"move_left\") }\n    fn is_move_left_just_released(&self) -> bool { self.is_action_just_released(\"move_left\") }\n}"
    );
}

#[test]
fn action_without_events_has_no_keystroke() {
    let section = InputSection::parse("[input]\nIdle={\n\"deadzone\": 0.5,\n}\n").unwrap();
    let actions = collect_actions(&section);
    assert_eq!(actions, vec![("Idle".to_string(), strings(&[]))]);
    assert!(!have_keystrokes(&actions));
    assert!(have_keystrokes(&vec![]));
}

#[test]
fn layers_are_grouped_and_written() {
    let project = ProjectGodot::parse_from_str(PROJECT);
    let layers = project.layer_names.unwrap();
    assert!(has_usable_keys(&layers));
    let groups = layer_groups(&layers);
    assert_eq!(
        groups,
        vec![
            (
                "Physics2d".to_string(),
                vec![(1, "collisions".to_string()), (2, "non colliding".to_string())]
            ),
            ("Render2d".to_string(), vec![(1, "ghosts".to_string())]),
        ]
    );
    assert_eq!(
        layers_file_content(&groups),
        "#![allow(dead_code)]\n\n#[derive(Debug, Clone, Copy, PartialEq, Eq, Hash)]\npub enum Physics2d {\n    COLLISIONS = 1,\n    NON_COLLIDING = 2,\n}\n\n#[derive(Debug, Clone, Copy, PartialEq, Eq, Hash)]\npub enum Render2d {\n    GHOSTS = 1,\n}\n"
    );
    assert_eq!(layers_file_content(&vec![]), "#![allow(dead_code)]\n\n");
}

#[test]
fn layer_keys_that_cannot_be_used_are_found() {
    let bad_number = LayerNamesSection::parse("[layer_names]\n2d_physics/layer_x=\"a\"\n").unwrap();
    assert!(!has_usable_keys(&bad_number));
    let too_large = LayerNamesSection::parse("[layer_names]\n2d_physics/layer_33=\"a\"\n").unwrap();
    assert!(!has_usable_keys(&too_large));
    let zero = LayerNamesSection::parse("[layer_names]\n2d_physics/layer_0=\"a\"\n").unwrap();
    assert!(!has_usable_keys(&zero));
    let fine =
        LayerNamesSection::parse("[layer_names]\nplain=\"a\"\na/b/c=\"d\"\nx/layer_32=\"y\"\n")
            .unwrap();
    assert!(has_usable_keys(&fine));
    assert_eq!(
        layer_groups(&fine),
        vec![("X".to_string(), vec![(32, "y".to_string())])]
    );
}

#[test]
fn builder_begins_with_defaults() {
    let g = Generator::builder();
    assert_eq!(g.output_dir(), "");
    assert_eq!(g.gdextension_path(), "");
    assert_eq!(g.project_godot_path(), "");
    assert_eq!(g.source_path(), "./src");
    assert_eq!(g.resource_path(), "../godot");
    assert!(g.validation_errors().is_empty());
    assert!(g.icon_sources().is_empty());
    assert!(!g.layer_consts_valid());
    assert!(!g.action_either_valid());
    assert!(!g.icon_comments_valid());
    assert!(!g.action_consts());
    assert!(!g.action_invocations());
    assert!(!g.project_godot_path_valid());
}

#[test]
fn builder_records_what_is_wrong() {
    let g = Generator::builder()
        .set_output_dir("", false, false)
        .set_gdextension_path("", false)
        .set_project_godot_path("missing.godot", false)
        .set_source_path("./src", false)
        .set_source_path("", true)
        .set_resource_path("../godot", false)
        .set_resource_path("elsewhere", false)
        .add_icon_source("", "x")
        .add_icon_source("res://icons/", "");
    assert_eq!(
        g.validation_errors(),
        &strings(&[
            "Output directory must be set, and cannot be empty",
            "Failed to create output directory",
            "gdextension path must be set with `set_gdextension_path`",
            "gdextension path does not exist: ",
            "project.godot path does not exist: missing.godot",
            "Source path does not exist: ./src (default, change with `set_source_path`)",
            "Source path must be set with `set_source_path`",
            "Resource path does not exist: ../godot (default, change with `set_resource_path`)",
            "Resource path does not exist: elsewhere",
            "Icon source paths must be non-empty strings",
            "Icon source paths must be non-empty strings",
        ])
    );
    assert!(g.icon_sources().is_empty());
}

#[test]
fn builder_with_valid_settings() {
    let g = Generator::builder()
        .set_output_dir("out", true, false)
        .set_gdextension_path("a.gdextension", true)
        .set_project_godot_path("project.godot", true)
        .set_source_path("src", true)
        .set_resource_path("gd", true)
        .add_icon_source("res://icons/gd/", "https://example.org/icons/")
        .add_icon_source("res://icons/local/", "./icons")
        .add_icon_source("res://icons/gd/", "./other")
        .output_layer_consts()
        .output_action_consts()
        .output_icon_comments();
    assert!(g.validation_errors().is_empty());
    assert_eq!(g.output_dir(), "out");
    assert_eq!(g.source_path(), "src");
    assert_eq!(g.resource_path(), "gd");
    assert!(g.project_godot_path_valid());
    assert!(g.layer_consts_valid());
    assert!(g.icon_comments_valid());
    assert!(g.action_consts());
    assert!(!g.action_either_valid());
    assert!(g.output_action_invocations().action_either_valid());
}

#[test]
fn output_directory_that_had_to_be_made_is_not_valid_yet() {
    let made = Generator::builder().set_output_dir("out", false, true);
    assert!(made.validation_errors().is_empty());
    let failed = Generator::builder().set_output_dir("out", false, false);
    assert_eq!(
        failed.validation_errors(),
        &strings(&["Failed to create output directory"])
    );
    let invalid_source = Generator::builder()
        .set_gdextension_path("a", true)
        .set_source_path("nowhere", false)
        .set_source_path("src", true)
        .output_icon_comments();
    assert!(!invalid_source.icon_comments_valid());
}

#[test]
fn layer_module_only_where_layers_are_named() {
    assert_eq!(layer_modules(true), strings(&["layer_consts"]));
    assert_eq!(layer_modules(false), strings(&[]));
}

#[test]
fn run_goes_ahead_only_without_recorded_errors() {
    assert!(Generator::builder().can_generate());
    assert!(Generator::builder()
        .set_project_godot_path("project.godot", true)
        .can_generate());
    assert!(!Generator::builder()
        .set_project_godot_path("project.godot", false)
        .can_generate());
    assert!(!Generator::builder().add_icon_source("", "").can_generate());
}
