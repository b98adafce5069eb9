use zgrcg::input_actions::{
    format_action_to_const, format_action_to_invocation_impl, format_action_to_invocation_trait,
    get_action_keystroke_doc_comment, get_action_mod_file, get_consts_file_content,
    get_invocations_file_content, join_keystrokes, with_backslashes,
};
use zgrcg::layers::{
    extract_group_data, format_group_to_enum, format_group_with_labels, layer_number,
    reorder_group_name,
};
use zgrcg::text::compare_texts;
use zgrcg::scenes::{
    format_scene_const_named, format_scene_to_action_impl, format_scene_to_action_trait,
    format_scene_to_const, format_scene_to_doc_comment, format_scenes_to_actions,
    format_scenes_to_consts, least_directories_then_alphabetical,
};
use zgrcg::utils::{
    pascal_to_snake_case, snake_case_with, to_resource_path, to_upper_camel_case,
    upper_camel_to_snake_case, uppercase_flags,
};

#[test]
fn test_get_action_keystroke_doc_comment() {
    assert_eq!(
        get_action_keystroke_doc_comment(&vec!["Ctrl+A".into()]),
        "/// Maps to: `Ctrl+A`"
    );
    assert_eq!(
        get_action_keystroke_doc_comment(&vec!["left_click".into(), "mouse_left".into()]),
        "/// Maps to: `left_click` or `mouse_left`"
    );
}

#[test]
fn test_get_action_mod_file() {
    assert_eq!(
        get_action_mod_file("src/generated", "consts"),
        "src\\generated\\actions_consts.rs"
    );
    assert_eq!(
        get_action_mod_file("src/generated", "invocations"),
        "src\\generated\\actions_invocations.rs"
    );
}

#[test]
fn test_get_consts_file_content() {
    assert_eq!(
        get_consts_file_content(
            "/// Maps to: `Ctrl+A`\npub fn CTRL_A() -> StringName { StringName::from(\"Ctrl+A\") }"
        ),
        "#![allow(dead_code)]\n#![allow(non_snake_case)]\nuse godot::builtin::StringName;\n\n/// Maps to: `Ctrl+A`\npub fn CTRL_A() -> StringName { StringName::from(\"Ctrl+A\") }"
    );
}

#[test]
fn test_format_action_to_const() {
    assert_eq!(
        format_action_to_const("Fire", "/// Maps to: `left_click`"),
        "/// Maps to: `left_click`\npub fn FIRE() -> StringName { StringName::from(\"Fire\") }"
    );
}

#[test]
fn test_get_invocations_file_content() {
    assert_eq!(
        get_invocations_file_content(
            "    /// Returns true while left_click is pressed\n    fn is_fire_pressed(&self) -> bool;",
            "    fn is_fire_pressed(&self) -> bool { self.is_action_pressed(\"Fire\") }"
        ),
        "#![allow(dead_code)]\nuse godot::classes::Input;\n\npub trait InputActionInvocations {\n    /// Returns true while left_click is pressed\n    fn is_fire_pressed(&self) -> bool;\n}\n\nimpl InputActionInvocations for Input {\n    fn is_fire_pressed(&self) -> bool { self.is_action_pressed(\"Fire\") }\n}"
    );
}

#[test]
fn test_join_keystrokes() {
    assert_eq!(join_keystrokes(&vec!["Ctrl+A".into()]), "Ctrl+A");
    assert_eq!(
        join_keystrokes(&vec!["left_click".into(), "mouse_left".into()]),
        "left_click` or `mouse_left"
    );
}

#[test]
fn test_format_action_to_invocation_trait() {
    assert_eq!(
        format_action_to_invocation_trait("Fire", &vec!["left_click".into()]),
        "    /// Returns true while `left_click` is pressed\n    fn is_fire_pressed(&self) -> bool;\n    /// Returns true when `left_click` is just pressed\n    fn is_fire_just_pressed(&self) -> bool;\n    /// Returns true when `left_click` is just released\n    fn is_fire_just_released(&self) -> bool;"
    );
    assert_eq!(
        format_action_to_invocation_trait("CtrlA", &vec!["Ctrl+A".into()]),
        "    /// Returns true while `Ctrl+A` are pressed\n    fn is_ctrl_a_pressed(&self) -> bool;\n    /// Returns true when `Ctrl+A` are just pressed\n    fn is_ctrl_a_just_pressed(&self) -> bool;\n    /// Returns true when `Ctrl+A` are just released\n    fn is_ctrl_a_just_released(&self) -> bool;"
    );
    assert_eq!(
        format_action_to_invocation_trait("MultiKey", &vec!["Shift+Ctrl+Alt+X".into(), "Y".into()]),
        "    /// Returns true while `Shift+Ctrl+Alt+X` or `Y` are pressed\n    fn is_multi_key_pressed(&self) -> bool;\n    /// Returns true when `Shift+Ctrl+Alt+X` or `Y` are just pressed\n    fn is_multi_key_just_pressed(&self) -> bool;\n    /// Returns true when `Shift+Ctrl+Alt+X` or `Y` are just released\n    fn is_multi_key_just_released(&self) -> bool;"
    );
}

#[test]
fn test_format_action_to_invocation_impl() {
    assert_eq!(
        format_action_to_invocation_impl("Fire"),
        "    fn is_fire_pressed(&self) -> bool { self.is_action_pressed(\"Fire\") }\n    fn is_fire_just_pressed(&self) -> bool { self.is_action_just_pressed(\"Fire\") }\n    fn is_fire_just_released(&self) -> bool { self.is_action_just_released(\"Fire\") }"
    );
}

#[test]
fn test_format_group_to_enum() {
    let group = "Physics2D";
    let layers = vec![(1, "Layer1".to_string()), (2, "Layer2".to_string())];
    let expected = r#"#[derive(Debug, Clone, Copy, PartialEq, Eq, Hash)]
pub enum Physics2D {
    LAYER1 = 1,
    LAYER2 = 2,
}
"#;
    assert_eq!(format_group_to_enum(group, &layers), expected);
}

#[test]
fn test_extract_group_data() {
    let input_group = "2d_physics/layer_1";
    let input_name = "Layer1";
    let expected = Some(("Physics2d".to_string(), 1, "Layer1".to_string()));
    assert_eq!(extract_group_data(input_group, input_name), expected);
}

#[test]
fn test_reorder_group_name() {
    let input = "2d_physics";
    let expected = "physics_2d".to_string();
    assert_eq!(reorder_group_name(input), expected);
}

#[test]
fn test_least_directories_then_alphabetical() {
    let mut paths = vec![
        "res://scenes/subfolder/LevelTwo.tscn",
        "res://scenes/Main.tscn",
        "res://scenes/LevelOne.tscn",
        "res://scenes/subfolder/AnotherScene.tscn",
    ];

    paths.sort_by(least_directories_then_alphabetical);

    let expected = vec![
        "res://scenes/LevelOne.tscn",
        "res://scenes/Main.tscn",
        "res://scenes/subfolder/AnotherScene.tscn",
        "res://scenes/subfolder/LevelTwo.tscn",
    ];

    assert_eq!(paths, expected);
}

#[test]
fn test_format_scenes_to_consts() {
    let scenes_and_paths = vec![
        ("Main".to_string(), "res://scenes/Main.tscn".to_string()),
        (
            "LevelOne".to_string(),
            "res://scenes/LevelOne.tscn".to_string(),
        ),
    ];

    let expected = "#![allow(dead_code)]\n/// `res://scenes/Main.tscn`\npub const MAIN: &'static str = \"res://scenes/Main.tscn\";\n/// `res://scenes/LevelOne.tscn`\npub const LEVEL_ONE: &'static str = \"res://scenes/LevelOne.tscn\";";

    let result = format_scenes_to_consts(&scenes_and_paths);
    assert_eq!(result, expected);
}

#[test]
fn test_format_scene_to_const() {
    assert_eq!(
        format_scene_to_const("Main", "res://scenes/Main.tscn"),
        "/// `res://scenes/Main.tscn`\npub const MAIN: &'static str = \"res://scenes/Main.tscn\";"
    );
    assert_eq!(
        format_scene_to_const("LevelOne", "res://scenes/LevelOne.tscn"),
        "/// `res://scenes/LevelOne.tscn`\npub const LEVEL_ONE: &'static str = \"res://scenes/LevelOne.tscn\";"
    );
}

#[test]
fn test_format_scenes_to_actions() {
    let scenes_and_paths = vec![
        ("Main".to_string(), "res://scenes/Main.tscn".to_string()),
        (
            "LevelOne".to_string(),
            "res://scenes/LevelOne.tscn".to_string(),
        ),
    ];

    let expected = r#"#![allow(dead_code)]
use godot::{
    prelude::Node,
    global::Error
};

pub trait SceneActions {
    fn change_scene_to(&self, scene_path: &str) -> Option<Error>;
    /// `res://scenes/Main.tscn`
    fn change_scene_to_main(&self) -> Option<Error>;
    /// `res://scenes/LevelOne.tscn`
    fn change_scene_to_level_one(&self) -> Option<Error>;
}

impl SceneActions for Node {
    fn change_scene_to(&self, scene_path: &str) -> Option<Error> {
        let st = self.get_tree();
        let mut err = None;

        if st.is_some() {
            err = Some(st.unwrap().change_scene_to_file(scene_path));
        }

        err
    }

    fn change_scene_to_main(&self) -> Option<Error> { self.change_scene_to("res://scenes/Main.tscn") }
    fn change_scene_to_level_one(&self) -> Option<Error> { self.change_scene_to("res://scenes/LevelOne.tscn") }
}"#;

    let result = format_scenes_to_actions(&scenes_and_paths);
    assert_eq!(result, expected);
}

#[test]
fn test_format_scene_to_action_trait() {
    assert_eq!(
        format_scene_to_action_trait("Main", "res://scenes/Main.tscn"),
        "    /// `res://scenes/Main.tscn`\n    fn change_scene_to_main(&self) -> Option<Error>;"
    );
    assert_eq!(
        format_scene_to_action_trait("LevelOne", "res://scenes/LevelOne.tscn"),
        "    /// `res://scenes/LevelOne.tscn`\n    fn change_scene_to_level_one(&self) -> Option<Error>;"
    );
}

#[test]
fn test_format_scene_to_action_impl() {
    assert_eq!(
        format_scene_to_action_impl("Main", "res://scenes/Main.tscn"),
        "    fn change_scene_to_main(&self) -> Option<Error> { self.change_scene_to(\"res://scenes/Main.tscn\") }"
    );
    assert_eq!(
        format_scene_to_action_impl("LevelOne", "res://scenes/LevelOne.tscn"),
        "    fn change_scene_to_level_one(&self) -> Option<Error> { self.change_scene_to(\"res://scenes/LevelOne.tscn\") }"
    );
}

#[test]
fn test_pascal_to_snake_case() {
    assert_eq!(pascal_to_snake_case("Fire"), "fire");
    assert_eq!(pascal_to_snake_case("JumpAction"), "jump_action");
    assert_eq!(pascal_to_snake_case("A"), "a");
    assert_eq!(pascal_to_snake_case(""), "");
}

#[test]
fn test_to_upper_camel_case() {
    assert_eq!(to_upper_camel_case("example_string"), "ExampleString");
    assert_eq!(to_upper_camel_case("another_example"), "AnotherExample");
    assert_eq!(to_upper_camel_case("single"), "Single");
    assert_eq!(to_upper_camel_case(""), "");
}

#[test]
fn test_upper_camel_to_snake_case() {
    assert_eq!(upper_camel_to_snake_case("ExampleString"), "example_string");
    assert_eq!(
        upper_camel_to_snake_case("AnotherExample"),
        "another_example"
    );
    assert_eq!(upper_camel_to_snake_case("Single"), "single");
    assert_eq!(upper_camel_to_snake_case(""), "");
}

#[test]
fn test_to_resource_path() {
    let resource_path = "C:/Projects/MyGame/gd";
    let path = "C:/Projects/MyGame/gd/scenes/Main.tscn";
    let expected = "res://scenes/Main.tscn";
    assert_eq!(to_resource_path(path, resource_path), expected);
}

#[test]
fn snake_case_goes_by_the_unicode_upper_case() {
    // An upper-case letter outside ASCII gets its underscore and keeps its form.
    assert_eq!(pascal_to_snake_case("aÉb"), "a_Éb");
    assert_eq!(pascal_to_snake_case("ABC"), "a_b_c");
    assert_eq!(pascal_to_snake_case("already_snake"), "already_snake");
}

#[test]
fn camel_case_leaves_underscores_out() {
    assert_eq!(to_upper_camel_case("__a__b_"), "AB");
    assert_eq!(to_upper_camel_case("physics_2d"), "Physics2d");
    assert_eq!(to_upper_camel_case("Éa_éb"), "Éaéb");
}

#[test]
fn resource_path_replaces_every_occurrence() {
    assert_eq!(to_resource_path("a/x/a/y", "a"), "res://x/res://y");
    assert_eq!(to_resource_path("aaa", "aa"), "res:/a");
    assert_eq!(to_resource_path("abc", "zz"), "abc");
    assert_eq!(to_resource_path("ab", ""), "ab".replace("", "res:/"));
    assert_eq!(to_resource_path("", ""), "res:/");
}

#[test]
fn backslashes_replace_slashes() {
    assert_eq!(with_backslashes("a/b/c"), "a\\b\\c");
    assert_eq!(with_backslashes("/"), "\\");
    assert_eq!(with_backslashes("plain"), "plain");
    assert!(!get_action_mod_file("/abs/dir", "consts").contains('/'));
}

#[test]
fn group_names_are_reordered() {
    assert_eq!(reorder_group_name("a_b_c"), "c_b_a");
    assert_eq!(reorder_group_name("single"), "single");
    assert_eq!(reorder_group_name(""), "");
    assert_eq!(reorder_group_name("a_"), "_a");
}

#[test]
fn layer_numbers_by_key() {
    assert_eq!(layer_number("2d_physics/layer_12"), Some(12));
    assert_eq!(layer_number("2d_render/layer_-3"), Some(-3));
    assert_eq!(layer_number("2d_physics/layer_x"), None);
    assert_eq!(layer_number("2d_physics"), None);
    assert_eq!(layer_number("a/b/c"), None);
    assert_eq!(extract_group_data("no_slash", "Name"), None);
    assert_eq!(
        extract_group_data("3d_navigation/layer_32", "Far away"),
        Some(("Navigation3d".to_string(), 32, "Far away".to_string()))
    );
}

#[test]
fn layer_bits_are_powers_of_two() {
    let layers = vec![
        (3, "player body".to_string()),
        (31, "straße".to_string()),
        (32, "last".to_string()),
    ];
    assert_eq!(
        format_group_to_enum("G", &layers),
        "#[derive(Debug, Clone, Copy, PartialEq, Eq, Hash)]\npub enum G {\n    PLAYER_BODY = 4,\n    STRASSE = 1073741824,\n    LAST = -2147483648,\n}\n"
    );
    assert_eq!(
        format_group_to_enum("Empty", &vec![]),
        "#[derive(Debug, Clone, Copy, PartialEq, Eq, Hash)]\npub enum Empty {\n}\n"
    );
}

#[test]
fn texts_compare_as_the_standard_strings_do() {
    let samples = ["", "a", "ab", "b", "B", "é", "z", "res://x", "res://x/y", "日本"];
    for a in samples.iter() {
        for b in samples.iter() {
            let x: Vec<char> = a.chars().collect();
            let y: Vec<char> = b.chars().collect();
            let sign = compare_texts(&x, &y);
            let expected = match a.cmp(b) {
                std::cmp::Ordering::Less => -1,
                std::cmp::Ordering::Equal => 0,
                std::cmp::Ordering::Greater => 1,
            };
            assert_eq!(sign, expected);
        }
    }
}

#[test]
fn scene_documentation_comment() {
    assert_eq!(format_scene_to_doc_comment("res://a.tscn"), "/// `res://a.tscn`");
    assert_eq!(format_scenes_to_consts(&vec![]), "#![allow(dead_code)]\n");
}

#[test]
fn snake_case_goes_by_the_flags_that_it_is_given() {
    assert_eq!(uppercase_flags("aBcÉ9"), vec![false, true, false, true, false]);
    assert_eq!(snake_case_with("JumpAction", &uppercase_flags("JumpAction")), "jump_action");
    assert_eq!(snake_case_with("abc", &vec![true, true, true]), "a_b_c");
    assert_eq!(snake_case_with("ABC", &vec![false, false, false]), "abc");
    assert_eq!(snake_case_with("ABC", &vec![false, true]), "a_bc");
    assert_eq!(snake_case_with("", &vec![true]), "");
}

#[test]
fn scene_constant_with_a_given_name() {
    assert_eq!(
        format_scene_const_named("level_one", "res://a.tscn"),
        "/// `res://a.tscn`\npub const level_one: &'static str = \"res://a.tscn\";"
    );
}

#[test]
fn group_with_given_labels_is_written_as_it_stands() {
    let layers = vec![(1, "player body".to_string()), (2, "Wall".to_string())];
    assert_eq!(
        format_group_with_labels("G", &layers),
        "#[derive(Debug, Clone, Copy, PartialEq, Eq, Hash)]\npub enum G {\n    player_body = 1,\n    Wall = 2,\n}\n"
    );
}

fn capital_flags(s: &str) -> Vec<bool> {
    s.chars().map(|c| c.is_ascii_uppercase()).collect()
}

#[test]
fn camel_name_comes_back_from_snake_case() {
    for name in ["ExampleString", "AnotherExample", "Single", "A", "", "ABC", "X1y2", "9Lives", "ÉtéChaud"] {
        let snake = snake_case_with(name, &capital_flags(name));
        assert_eq!(to_upper_camel_case(&snake), name, "through {}", snake);
        let by_unicode = pascal_to_snake_case(name);
        assert_eq!(to_upper_camel_case(&by_unicode), name, "through {}", by_unicode);
    }
    // A name that begins with a small letter does not come back.
    assert_eq!(to_upper_camel_case(&pascal_to_snake_case("aB")), "AB");
}

#[test]
fn snake_name_comes_back_from_camel_case() {
    for name in ["example_string", "another_example", "single", "a", "", "a_b_c", "x1_y2", "1st_try"] {
        let camel = to_upper_camel_case(name);
        assert_eq!(snake_case_with(&camel, &capital_flags(&camel)), name, "through {}", camel);
        assert_eq!(upper_camel_to_snake_case(&camel), name, "through {}", camel);
    }
    // A digit behind an underscore does not bring the underscore back.
    assert_eq!(upper_camel_to_snake_case(&to_upper_camel_case("a_1")), "a1");
}
