use zgrcg::event::{extract_input_event_from_string, split_events_array, InputEvent};
use zgrcg::keys::{key_str_from_codes, mouse_button_str_from_code};
use zgrcg::projectgodot::{parse_input_from_input_block, InputSection};
use zgrcg::splitter::split_properties_string;
use zgrcg::strmap::StrMap;

fn float_of(text: Option<&String>) -> Option<f32> {
    text.map(|t| t.parse::<f32>().unwrap())
}

fn vec2_of(pair: Option<&(String, String)>) -> Option<(f32, f32)> {
    pair.map(|p| (p.0.parse::<f32>().unwrap(), p.1.parse::<f32>().unwrap()))
}

#[test]
fn test_input_section_parse() {
    let content = r#"[input]
    Fire={
    "deadzone": 0.5,
    "events": [Object(InputEventMouseButton,"resource_local_to_scene":false,"resource_name":"","device":-1,"window_id":0,"alt_pressed":false,"shift_pressed":false,"ctrl_pressed":false,"meta_pressed":false,"button_mask":0,"position":Vector2(0, 0),"global_position":Vector2(0, 0),"factor":1.0,"button_index":1,"canceled":false,"pressed":false,"double_click":false,"script":null)
    ]
    }
    "#;
    let input_section = InputSection::parse(content).unwrap();

    assert_eq!(input_section.inputs.len(), 1);
    let fire_input = input_section.inputs.get("Fire").unwrap();
    assert_eq!(fire_input.name, "Fire");
}

#[test]
fn test_parse_input_from_input_block() {
    let input = r#"Fire={
"deadzone": 0.5,
"events": [Object(InputEventMouseButton,"resource_local_to_scene":false,"resource_name":"","device":-1,"window_id":0,"alt_pressed":false,"shift_pressed":false,"ctrl_pressed":false,"meta_pressed":false,"button_mask":0,"position":Vector2(0, 0),"global_position":Vector2(0, 0),"factor":1.0,"button_index":1,"canceled":false,"pressed":false,"double_click":false,"script":null)
]
}"#;

    let block_lines: Vec<String> = input.lines().map(|s| s.to_string()).collect();
    let parsed_input = parse_input_from_input_block(block_lines).unwrap();

    assert_eq!(parsed_input.name, "Fire");
    assert_eq!(float_of(parsed_input.deadzone.as_ref()), Some(0.5));
    assert_eq!(parsed_input.events.len(), 1);
}

#[test]
fn test_input_event_get_key_string_keys() {
    let mut event = InputEvent {
        event_type: "InputEventKey".to_string(),
        str_properties: StrMap::new(),
        bool_properties: StrMap::new(),
        int_properties: StrMap::new(),
        float_properties: StrMap::new(),
        vec2_properties: StrMap::new(),
    };

    event.int_properties.insert("unicode", 97); // 'a'
    assert_eq!(event.get_key_string(), Some("a".to_string()));

    event.int_properties.insert("keycode", 65); // 'A'
    assert_eq!(event.get_key_string(), Some("A".to_string()));

    event.int_properties.insert("ctrl_pressed", 1);
    assert_eq!(event.get_key_string(), Some("ctrl+A".to_string()));

    event.int_properties.insert("shift_pressed", 1);
    assert_eq!(event.get_key_string(), Some("ctrl+shift+A".to_string()));

    event.int_properties.insert("alt_pressed", 1);
    assert_eq!(event.get_key_string(), Some("ctrl+shift+alt+A".to_string()));
}

#[test]
fn test_input_event_get_key_string_mouse() {
    let mut event = InputEvent {
        event_type: "InputEventMouseButton".to_string(),
        str_properties: StrMap::new(),
        bool_properties: StrMap::new(),
        int_properties: StrMap::new(),
        float_properties: StrMap::new(),
        vec2_properties: StrMap::new(),
    };

    event.int_properties.insert("button_index", 1); // Left click
    assert_eq!(event.get_key_string(), Some("left_click".to_string()));

    event.bool_properties.insert("double_click", true);
    assert_eq!(
        event.get_key_string(),
        Some("double_left_click".to_string())
    );

    event.int_properties.insert("button_index", 2); // Right click
    assert_eq!(
        event.get_key_string(),
        Some("double_right_click".to_string())
    );

    event.int_properties.insert("button_index", 4); // Wheel up
    event.bool_properties.insert("double_click", false);
    assert_eq!(event.get_key_string(), Some("wheel_up".to_string()));

    event.int_properties.insert("button_index", 5); // Wheel down
    event.bool_properties.insert("double_click", true);
    assert_eq!(
        event.get_key_string(),
        Some("double_wheel_down".to_string())
    );

    event.int_properties.insert("ctrl_pressed", 1);
    assert_eq!(
        event.get_key_string(),
        Some("ctrl+double_wheel_down".to_string())
    );

    event.int_properties.insert("button_index", 8); // Invalid button
    assert_eq!(event.get_key_string(), Some("ctrl+".to_string()));
}

#[test]
fn test_mouse_button_str_from_code() {
    assert_eq!(
        mouse_button_str_from_code(1, false),
        Some("left_click".to_string())
    );
    assert_eq!(
        mouse_button_str_from_code(2, true),
        Some("double_right_click".to_string())
    );
    assert_eq!(
        mouse_button_str_from_code(3, false),
        Some("middle_click".to_string())
    );
    assert_eq!(
        mouse_button_str_from_code(4, false),
        Some("wheel_up".to_string())
    );
    assert_eq!(
        mouse_button_str_from_code(5, true),
        Some("double_wheel_down".to_string())
    );
    assert_eq!(mouse_button_str_from_code(8, false), None);
    assert_eq!(mouse_button_str_from_code(8, true), None);
}

#[test]
fn test_key_str_from_codes() {
    assert_eq!(
        key_str_from_codes(Some(65), None, None),
        Some("A".to_string())
    );
    assert_eq!(
        key_str_from_codes(None, Some(66), None),
        Some("B".to_string())
    );
    assert_eq!(
        key_str_from_codes(None, None, Some(67)),
        Some("C".to_string())
    );
    assert_eq!(
        key_str_from_codes(None, None, Some(13)),
        Some("enter".to_string())
    );
    assert_eq!(
        key_str_from_codes(None, None, Some(32)),
        Some("space".to_string())
    );
    assert_eq!(
        key_str_from_codes(None, None, Some(256)),
        Some("left".to_string())
    );
    assert_eq!(
        key_str_from_codes(None, None, Some(300)),
        Some("".to_string())
    );
    assert_eq!(key_str_from_codes(None, None, None), None);
}

#[test]
fn test_split_events_array() {
    let input = r#"[Object(InputEventKey,"resource_local_to_scene":false,"resource_name":"","device":-1,"window_id":0,"alt_pressed":false,"shift_pressed":false,"ctrl_pressed":false,"meta_pressed":false,"echo":false,"scancode":0,"physical_scancode":0,"pressed":false,"repeated":false,"script":null), Object(InputEventMouseButton,"resource_local_to_scene":false,"resource_name":"","device":-1,"window_id":0,"alt_pressed":false,"shift_pressed":false,"ctrl_pressed":false,"meta_pressed":false,"button_mask":0,"position":Vector2(0, 0),"global_position":Vector2(0, 0),"factor":1.0,"button_index":1,"canceled":false,"pressed":false,"double_click":false,"script":null)]"#;
    let expected = vec![
        r#"Object(InputEventKey,"resource_local_to_scene":false,"resource_name":"","device":-1,"window_id":0,"alt_pressed":false,"shift_pressed":false,"ctrl_pressed":false,"meta_pressed":false,"echo":false,"scancode":0,"physical_scancode":0,"pressed":false,"repeated":false,"script":null)"#,
        r#"Object(InputEventMouseButton,"resource_local_to_scene":false,"resource_name":"","device":-1,"window_id":0,"alt_pressed":false,"shift_pressed":false,"ctrl_pressed":false,"meta_pressed":false,"button_mask":0,"position":Vector2(0, 0),"global_position":Vector2(0, 0),"factor":1.0,"button_index":1,"canceled":false,"pressed":false,"double_click":false,"script":null)"#,
    ];
    assert_eq!(expected.len(), 2);
    let found = split_events_array(input);
    assert_eq!(found.len(), 2);
    for (i, event) in found.iter().enumerate() {
        assert_eq!(event, expected[i]);
    }
}

#[test]
fn test_extract_input_event_from_string() {
    let input = r#"Object(InputEventKey,"resource_local_to_scene":false,"resource_name":"","device":-1,"window_id":0,"alt_pressed":false,"shift_pressed":false,"ctrl_pressed":false,"meta_pressed":false,"echo":false,"scancode":0,"physical_scancode":0,"global_position":Vector2(0, 0),"pressed":false,"repeated":false,"factor":1.0,"script":null)"#;
    let event = extract_input_event_from_string(input).unwrap();
    assert_eq!(event.event_type, "InputEventKey");
    assert_eq!(
        event.bool_properties.get("resource_local_to_scene"),
        Some(&false)
    );
    assert_eq!(
        event.str_properties.get("resource_name"),
        Some(&"".to_string())
    );
    assert_eq!(event.int_properties.get("device"), Some(&-1));
    assert_eq!(float_of(event.float_properties.get("factor")), Some(1.0));
    assert_eq!(
        vec2_of(event.vec2_properties.get("global_position")),
        Some((0.0, 0.0))
    );
}

#[test]
fn test_split_properties_string() {
    let input = r#""resource_local_to_scene":false,"resource_name":"","device":-1,"window_id":0,"alt_pressed":false,"shift_pressed":false,"ctrl_pressed":false,"meta_pressed":false,"echo":false,"scancode":0,"physical_scancode":0,"pressed":false,"repeated":false,"factor":1.0,"script":null"#;
    let expected = vec![
        ("resource_local_to_scene", "false"),
        ("resource_name", "\"\""),
        ("device", "-1"),
        ("window_id", "0"),
        ("alt_pressed", "false"),
        ("shift_pressed", "false"),
        ("ctrl_pressed", "false"),
        ("meta_pressed", "false"),
        ("echo", "false"),
        ("scancode", "0"),
        ("physical_scancode", "0"),
        ("pressed", "false"),
        ("repeated", "false"),
        ("factor", "1.0"),
        ("script", "null"),
    ];
    let result = split_properties_string(input);
    assert_eq!(result.len(), expected.len());
    for (i, (key, value)) in result.iter().enumerate() {
        assert_eq!(*key, expected[i].0);
        assert_eq!(*value, expected[i].1);
    }
}

#[test]
fn last_property_of_a_wrapped_literal_loses_the_closing_parenthesis() {
    let event = extract_input_event_from_string(
        r#"Object(InputEventKey,"unicode":97,"script":null)"#,
    )
    .unwrap();
    assert_eq!(event.int_properties.get("unicode"), Some(&97));
    assert_eq!(event.str_properties.get("script"), Some(&"null".to_string()));
    assert_eq!(event.get_key_string(), Some("a".to_string()));
}

#[test]
fn literal_without_a_top_level_comma_is_no_event() {
    assert!(extract_input_event_from_string("Object(InputEventKey)").is_none());
    assert!(extract_input_event_from_string("").is_none());
    assert!(extract_input_event_from_string("InputEventKey(\"a\":1,\"b\":2)").is_none());
}

#[test]
fn a_property_given_twice_stands_in_one_map_only() {
    let event =
        extract_input_event_from_string(r#"Object(InputEventKey,"a":1,"b":2,"a":true)"#).unwrap();
    assert_eq!(event.int_properties.get("a"), None);
    assert_eq!(event.bool_properties.get("a"), Some(&true));
    assert_eq!(event.int_properties.get("b"), Some(&2));
    assert_eq!(event.int_properties.len(), 1);
}

#[test]
fn two_events_with_vectors_are_two_spans() {
    let input = r#"[Object(InputEventMouseButton,"button_index":1,"position":Vector2(3, 4),"double_click":false), Object(InputEventKey,"unicode":97,"position":Vector2(0, 0))]"#;
    let spans = split_events_array(input);
    assert_eq!(spans.len(), 2);
    let first = extract_input_event_from_string(&spans[0]).unwrap();
    let second = extract_input_event_from_string(&spans[1]).unwrap();
    assert_eq!(first.event_type, "InputEventMouseButton");
    assert_eq!(first.get_key_string(), Some("left_click".to_string()));
    assert_eq!(vec2_of(first.vec2_properties.get("position")), Some((3.0, 4.0)));
    assert_eq!(second.event_type, "InputEventKey");
    assert_eq!(second.get_key_string(), Some("a".to_string()));
}

#[test]
fn unclosed_literal_gives_no_span_but_a_closed_one_inside_does() {
    assert_eq!(split_events_array("[Object(A,\"x\":1").len(), 0);
    let spans = split_events_array("[Object(A,\"x\":1, Object(B,\"y\":2)");
    assert_eq!(spans, vec!["Object(B,\"y\":2)".to_string()]);
    assert_eq!(split_events_array("").len(), 0);
    assert_eq!(split_events_array("[]").len(), 0);
}

#[test]
fn parenthesis_inside_quotes_closes_nothing() {
    let spans = split_events_array(r#"[Object(A,"x":")"), Object(B,"y":2)]"#);
    assert_eq!(
        spans,
        vec![
            r#"Object(A,"x":")")"#.to_string(),
            r#"Object(B,"y":2)"#.to_string()
        ]
    );
}

#[test]
fn key_names_by_code() {
    assert_eq!(key_str_from_codes(None, None, Some(97)), Some("a".to_string()));
    assert_eq!(key_str_from_codes(None, None, Some(8)), Some("backspace".to_string()));
    assert_eq!(key_str_from_codes(None, None, Some(9)), Some("tab".to_string()));
    assert_eq!(key_str_from_codes(None, None, Some(27)), Some("escape".to_string()));
    assert_eq!(key_str_from_codes(None, None, Some(127)), Some("delete".to_string()));
    assert_eq!(key_str_from_codes(None, None, Some(126)), Some("~".to_string()));
    assert_eq!(key_str_from_codes(None, None, Some(33)), Some("!".to_string()));
    assert_eq!(key_str_from_codes(None, None, Some(31)), Some("".to_string()));
    assert_eq!(key_str_from_codes(None, None, Some(128)), Some("".to_string()));
    assert_eq!(key_str_from_codes(None, None, Some(-5)), Some("".to_string()));
    assert_eq!(key_str_from_codes(None, None, Some(265)), Some("f1".to_string()));
    assert_eq!(key_str_from_codes(None, None, Some(276)), Some("f12".to_string()));
    assert_eq!(key_str_from_codes(None, None, Some(277)), Some("".to_string()));
    let names = [
        "left", "right", "up", "down", "page_up", "page_down", "home", "end", "insert",
    ];
    for (i, name) in names.iter().enumerate() {
        assert_eq!(
            key_str_from_codes(None, None, Some(256 + i as i32)),
            Some(name.to_string())
        );
    }
}

#[test]
fn zero_codes_count_as_absent() {
    assert_eq!(key_str_from_codes(Some(0), Some(0), Some(0)), None);
    assert_eq!(key_str_from_codes(Some(0), Some(66), Some(67)), Some("B".to_string()));
    assert_eq!(key_str_from_codes(Some(0), None, Some(67)), Some("C".to_string()));
    assert_eq!(key_str_from_codes(Some(65), Some(66), Some(67)), Some("A".to_string()));
}

#[test]
fn mouse_buttons_by_index() {
    assert_eq!(mouse_button_str_from_code(6, false), Some("wheel_left".to_string()));
    assert_eq!(mouse_button_str_from_code(7, true), Some("double_wheel_right".to_string()));
    assert_eq!(mouse_button_str_from_code(3, true), Some("double_middle_click".to_string()));
    assert_eq!(mouse_button_str_from_code(0, false), None);
    assert_eq!(mouse_button_str_from_code(-1, false), None);
}

#[test]
fn event_of_another_type_has_modifiers_only() {
    let mut event = InputEvent::new("InputEventJoypadButton");
    assert_eq!(event.get_key_string(), Some("".to_string()));
    event.int_properties.insert("shift_pressed", 1);
    event.int_properties.insert("alt_pressed", 1);
    event.int_properties.insert("ctrl_pressed", 2);
    assert_eq!(event.get_key_string(), Some("shift+alt+".to_string()));
}

#[test]
fn mouse_event_without_index_has_no_button() {
    let mut event = InputEvent::new("InputEventMouseButton");
    event.int_properties.insert("ctrl_pressed", 1);
    assert_eq!(event.get_key_string(), Some("ctrl+".to_string()));
}

#[test]
fn block_without_a_name_is_no_input() {
    let lines = vec!["\"deadzone\": 0.5,".to_string(), "}".to_string()];
    assert!(parse_input_from_input_block(lines).is_none());
}

#[test]
fn block_members_behind_the_closing_brace_do_not_count() {
    let lines = vec![
        "Jump={".to_string(),
        "# a comment".to_string(),
        "\"deadzone\": abc,".to_string(),
        "}".to_string(),
        "\"deadzone\": 0.25,".to_string(),
    ];
    let input = parse_input_from_input_block(lines).unwrap();
    assert_eq!(input.name, "Jump");
    assert_eq!(input.deadzone, None);
    assert_eq!(input.events.len(), 0);
}

#[test]
fn input_section_later_block_wins() {
    let content = "[input]\nFire={\n\"deadzone\": 0.5,\n}\nJump={\n\"deadzone\": 0.1,\n}\nFire={\n\"deadzone\": 0.75,\n}\n";
    let section = InputSection::parse(content).unwrap();
    assert_eq!(section.inputs.len(), 2);
    assert_eq!(
        float_of(section.inputs.get("Fire").unwrap().deadzone.as_ref()),
        Some(0.75)
    );
    assert_eq!(
        float_of(section.inputs.get("Jump").unwrap().deadzone.as_ref()),
        Some(0.1)
    );
    assert!(InputSection::parse("[inputs]\n").is_none());
}

#[test]
fn text_value_is_kept_with_and_without_quotes() {
    for s in ["abc", "a b", "null", "True", "x-1", "1x", "e5", "é", "res://icon.svg", "-", "+."] {
        let quoted = format!(r#"Object(T,"k":"{}","z":0)"#, s);
        let bare = format!(r#"Object(T,"k":{},"z":0)"#, s);
        for literal in [quoted, bare] {
            let event = extract_input_event_from_string(&literal).unwrap();
            assert_eq!(event.event_type, "T");
            assert_eq!(event.str_properties.get("k"), Some(&s.to_string()), "{}", literal);
            assert_eq!(event.str_properties.len(), 1);
            assert_eq!(event.int_properties.get("z"), Some(&0));
        }
    }
}

#[test]
fn backslash_before_the_closing_quote_keeps_the_quotes_open() {
    let event = extract_input_event_from_string(r#"Object(T,"k":"a\","z":0)"#).unwrap();
    assert_eq!(
        event.str_properties.get("k"),
        Some(&r#""a\","z":0)"#.to_string())
    );
    assert_eq!(event.int_properties.get("z"), None);
}
