use regex::Regex;
use zgrcg::gdextension::{
    ConfigurationSection, DependenciesSection, Gdextension, IconsSection, LibrariesSection,
};
use zgrcg::projectgodot::{
    ApplicationSection, AutoloadSection, DotnetSection, LayerNamesSection, ProjectGodot,
    RenderingSection,
};
use zgrcg::scalar::{coerce, float_literal, parse_i32, parse_u32, Scalar};
use zgrcg::sections::split_sections;
use zgrcg::splitter::{split_first, split_top_level};
use zgrcg::strmap::StrMap;
use zgrcg::text::{char_is_whitespace, lines, split, trim, trim_matches};

fn chars(s: &str) -> Vec<char> {
    s.chars().collect()
}

fn text(v: &Vec<char>) -> String {
    v.iter().collect()
}

fn texts(v: &Vec<Vec<char>>) -> Vec<String> {
    v.iter().map(text).collect()
}

fn value<'a>(m: &'a StrMap<String>, key: &str) -> Option<&'a str> {
    m.get(key).map(|s| s.as_str())
}

#[test]
fn vector_literal_is_one_segment() {
    assert_eq!(texts(&split_top_level(&chars("Vector2(0, 0)"), ',')), vec!["Vector2(0, 0)"]);
}

#[test]
fn comma_inside_quotes_does_not_split() {
    assert_eq!(
        texts(&split_top_level(&chars("\"a,b\",c"), ',')),
        vec!["\"a,b\"", "c"]
    );
}

#[test]
fn last_segment_is_always_there() {
    assert_eq!(texts(&split_top_level(&chars(""), ',')), vec![""]);
    assert_eq!(texts(&split_top_level(&chars("a,"), ',')), vec!["a", ""]);
    assert_eq!(texts(&split_top_level(&chars(",,"), ',')), vec!["", "", ""]);
}

#[test]
fn unbalanced_closing_parenthesis_keeps_depth_at_zero() {
    assert_eq!(
        texts(&split_top_level(&chars("a),b),(c,d),e"), ',')),
        vec!["a)", "b)", "(c,d)", "e"]
    );
    assert_eq!(texts(&split_top_level(&chars("(a,b"), ',')), vec!["(a,b"]);
    assert_eq!(texts(&split_top_level(&chars("\"(\",x"), ',')), vec!["\"(\"", "x"]);
}

#[test]
fn first_top_level_colon_splits_a_property() {
    let (k, v) = split_first(&chars("\"a:b\":\"c:d\""), ':').unwrap();
    assert_eq!(text(&k), "\"a:b\"");
    assert_eq!(text(&v), "\"c:d\"");
    assert!(split_first(&chars("(a:b)"), ':').is_none());
    assert!(split_first(&chars("no colon"), ':').is_none());
}

fn kind(s: &str) -> String {
    match coerce(&chars(s)) {
        Scalar::Bool(b) => format!("bool {}", b),
        Scalar::Int(i) => format!("int {}", i),
        Scalar::Float(t) => format!("float {}", t),
        Scalar::Vec2(x, y) => format!("vec2 {} {}", x, y),
        Scalar::Str(t) => format!("str {}", t),
    }
}

#[test]
fn coercion_follows_the_order_of_the_rules() {
    assert_eq!(kind("true"), "bool true");
    assert_eq!(kind("false"), "bool false");
    assert_eq!(kind("True"), "str True");
    assert_eq!(kind("-1"), "int -1");
    assert_eq!(kind("+7"), "int 7");
    assert_eq!(kind("2147483647"), "int 2147483647");
    assert_eq!(kind("-2147483648"), "int -2147483648");
    assert_eq!(kind("2147483648"), "float 2147483648");
    assert_eq!(kind("1.0"), "float 1.0");
    assert_eq!(kind("1e5"), "float 1e5");
    assert_eq!(kind("nan"), "float nan");
    assert_eq!(kind("Vector2(0, 0)"), "vec2 0 0");
    assert_eq!(kind("Vector2( 1.5 ,-2e3 )"), "vec2 1.5 -2e3");
    assert_eq!(kind("Vector2(a, 0)"), "str Vector2(a, 0)");
    assert_eq!(kind("Vector2(1, 2, 3)"), "str Vector2(1, 2, 3)");
    assert_eq!(kind("Vector2()"), "str Vector2()");
    assert_eq!(kind("\"text\""), "str text");
    assert_eq!(kind("\"1\""), "str 1");
    assert_eq!(kind("\"true\""), "str true");
    assert_eq!(kind("\"\""), "str ");
    assert_eq!(kind("\""), "str ");
    assert_eq!(kind("\"\"a\"\""), "str a");
    assert_eq!(kind("\"a\\\"b\""), "str a\\\"b");
    assert_eq!(kind("null"), "str null");
    assert_eq!(kind("anything else"), "str anything else");
    assert_eq!(kind(""), "str ");
}

#[test]
fn quoted_text_loses_its_quotes_once_and_for_all() {
    for inner in ["text", "", "a b", "1", "x:y,z", "(", "é"] {
        let token = format!("\"{}\"", inner);
        assert_eq!(kind(&token), format!("str {}", inner));
        let stripped = trim_matches(&chars(&token), '"');
        assert_eq!(text(&trim_matches(&stripped, '"')), text(&stripped));
    }
}

#[test]
fn integers_parse_as_the_standard_library_parses_them() {
    let samples = [
        "", "0", "-0", "+0", "7", "-7", "+7", "007", "2147483647", "2147483648", "-2147483648",
        "-2147483649", "4294967295", "4294967296", "99999999999999999999", "-", "+", "--1", "+-1",
        "1-", " 1", "1 ", "1_000", "0x10", "1.0", "١", "12a", "a12", "-4294967296",
    ];
    for s in samples.iter() {
        assert_eq!(parse_i32(&chars(s)), s.parse::<i32>().ok(), "i32 of {:?}", s);
        assert_eq!(parse_u32(&chars(s)), s.parse::<u32>().ok(), "u32 of {:?}", s);
    }
}

#[test]
fn float_literals_are_what_the_standard_library_parses() {
    let samples = [
        "", "0", "1", "-1", "+1", "1.", ".5", "-.5", "1.5", "1e5", "1E5", "1e+5", "1e-5", "1.e5",
        ".5e3", "1.5e", "1e", "1e+", "e5", ".", "-.", "+", "-", ".e5", "inf", "-inf", "+inf", "Inf",
        "INF", "infinity", "-Infinity", "INFINITY", "infinit", "infinityy", "nan", "NaN", "-nan",
        "+NAN", "na", "nana", " 1", "1 ", "1_0", "0x1p3", "1,5", "1.5.5", "1e5e5", "--1", "1f32",
        "3.14", "2.5E-10", "5.", "١", "1e٥", "ınf", "İnf", "0.0000000000000000000000000000001",
        "123456789012345678901234567890", "1e99999",
    ];
    for s in samples.iter() {
        assert_eq!(
            float_literal(&chars(s)),
            s.parse::<f32>().is_ok(),
            "float literal {:?}",
            s
        );
    }
}

#[test]
fn whitespace_is_the_standard_whitespace() {
    for n in 0u32..0x11_0000 {
        if let Some(c) = char::from_u32(n) {
            assert_eq!(char_is_whitespace(c), c.is_whitespace(), "U+{:04X}", n);
        }
    }
}

#[test]
fn trimming_and_splitting_are_the_standard_ones() {
    let samples = [
        "", " ", "a", " a ", "\t\r\n a b \u{a0}\u{2003}\n", "\u{3000}x\u{85}", "  \"q\"  ",
        "a\nb", "a\r\nb\r\n", "a\n\nb\n", "\n", "\r", "a\r", "a\r\r\n", "\r\n\r\n", "x=y\n[z]",
    ];
    for s in samples.iter() {
        assert_eq!(text(&trim(&chars(s))), s.trim(), "trim {:?}", s);
        assert_eq!(
            text(&trim_matches(&chars(s), '"')),
            s.trim_matches('"'),
            "trim_matches {:?}",
            s
        );
        let expected: Vec<String> = s.lines().map(|l| l.to_string()).collect();
        assert_eq!(texts(&lines(&chars(s))), expected, "lines {:?}", s);
        let pieces: Vec<String> = s.split('\n').map(|l| l.to_string()).collect();
        assert_eq!(texts(&split(&chars(s), '\n')), pieces, "split {:?}", s);
    }
}

fn header_starts(s: &str) -> Vec<usize> {
    // All samples are ASCII, so byte offsets are character offsets.
    let re = Regex::new(r"(?m)^\[(\w+)\]$").unwrap();
    re.find_iter(s).map(|m| m.start()).collect()
}

#[test]
fn sections_begin_where_the_header_pattern_matches() {
    let samples = [
        "",
        "[a]",
        "[a]\n",
        "x=1\n[a]\nk=v\n[b_2]\n\n[C]",
        "[a]\n[b]\n[c]\n",
        "no sections at all\n",
        "[]\n[ a]\n[a ]\n [a]\n[a] \n[a-b]\n[a]x\nx[a]\n",
        "k=[a]\n[a]=k\n[[a]]\n[a][b]\n",
        "[a]\r\n[b]\r\n",
        "\n\n[one]\nevents=[Object(X)]\n[two]",
        "config_version=5\n\n[application]\n\nconfig/name=\"x\"\n",
    ];
    for s in samples.iter() {
        let split = split_sections(&chars(s));
        let starts = header_starts(s);
        assert_eq!(split.sections.len(), starts.len(), "sections of {:?}", s);
        let first = starts.first().copied().unwrap_or(s.len());
        assert_eq!(text(&split.preamble), &s[..first]);
        for (i, section) in split.sections.iter().enumerate() {
            let end = starts.get(i + 1).copied().unwrap_or(s.len());
            assert_eq!(text(section), &s[starts[i]..end]);
        }
        let mut whole = text(&split.preamble);
        for section in split.sections.iter() {
            whole.push_str(&text(section));
        }
        assert_eq!(&whole, s);
    }
}

#[test]
fn configuration_section_round_trip() {
    let c = ConfigurationSection::parse("[configuration]\nentry_symbol=\"x\"\nreloadable=true\n")
        .unwrap();
    assert_eq!(c.entry_symbol, Some("x".to_string()));
    assert_eq!(c.reloadable, Some(true));
    assert_eq!(c.compatibility_minimum, None);
    assert_eq!(c.compatibility_maximum, None);
    assert_eq!(c.android_aar_plugin, None);
    assert_eq!(c.to_string(), "[configuration]\nentry_symbol=\"x\"\nreloadable=true\n");
    let again = ConfigurationSection::parse(&c.to_string()).unwrap();
    assert_eq!(again.entry_symbol, Some("x".to_string()));
    assert_eq!(again.reloadable, Some(true));
}

#[test]
fn configuration_section_of_a_document() {
    let doc = Gdextension::parse_from_str("[configuration]\nentry_symbol=\"x\"\nreloadable=true\n");
    let c = doc.configuration.unwrap();
    assert_eq!(c.entry_symbol, Some("x".to_string()));
    assert_eq!(c.reloadable, Some(true));
    assert_eq!(c.compatibility_minimum, None);
    assert_eq!(c.compatibility_maximum, None);
    assert_eq!(c.android_aar_plugin, None);
    assert!(doc.libraries.is_none());
    assert!(doc.icons.is_none());
    assert!(doc.dependencies.is_none());
}

#[test]
fn configuration_section_all_fields() {
    let content = r#"[configuration]
# a comment
entry_symbol="gdext_rust_init"
compatibility.minimum="4.1"
compatibility.maximum = "4.2"
reloadable=TRUE
android.aar_plugin=false
unknown=1
reloadable=yes
"#;
    let config = ConfigurationSection::parse(content).unwrap();
    assert_eq!(config.entry_symbol, Some("gdext_rust_init".to_string()));
    assert_eq!(config.compatibility_minimum, Some("4.1".to_string()));
    assert_eq!(config.compatibility_maximum, Some("4.2".to_string()));
    assert_eq!(config.reloadable, Some(false));
    assert_eq!(config.android_aar_plugin, Some(false));
    assert_eq!(
        config.to_string(),
        "[configuration]\nentry_symbol=\"gdext_rust_init\"\ncompatibility.minimum=\"4.1\"\ncompatibility.maximum=\"4.2\"\nreloadable=false\nandroid.aar_plugin=false\n"
    );
    assert!(ConfigurationSection::parse("[libraries]\n").is_none());
    assert!(ConfigurationSection::parse("").is_none());
    assert!(ConfigurationSection::parse("  \n[configuration]").is_some());
}

#[test]
fn libraries_and_icons_sections() {
    let libraries = LibrariesSection::parse(
        "[libraries]\nwindows.debug.x86_64=\"res://path/to/library.dll\"\nlinux.release.x86_64=\"res://path/to/library.so\"\nwindows.debug.x86_64=\"res://other.dll\"\n",
    )
    .unwrap();
    assert_eq!(libraries.libraries.len(), 2);
    assert_eq!(value(&libraries.libraries, "windows.debug.x86_64"), Some("res://other.dll"));
    assert_eq!(
        value(&libraries.libraries, "linux.release.x86_64"),
        Some("res://path/to/library.so")
    );
    assert_eq!(
        libraries.to_string(),
        "[libraries]\nwindows.debug.x86_64=\"res://other.dll\"\nlinux.release.x86_64=\"res://path/to/library.so\"\n"
    );
    let icons = IconsSection::parse(
        "[icons]\nMyClass=\"res://path/to/icon.png\"\n[not a pair=1]\nMyOtherClass = \"res://other.png\"\n",
    )
    .unwrap();
    assert_eq!(icons.name, "icons");
    assert_eq!(icons.icons.len(), 2);
    assert_eq!(value(&icons.icons, "MyClass"), Some("res://path/to/icon.png"));
    assert_eq!(value(&icons.icons, "MyOtherClass"), Some("res://other.png"));
    assert_eq!(
        icons.to_string(),
        "[icons]\nMyClass=\"res://path/to/icon.png\"\nMyOtherClass=\"res://other.png\"\n"
    );
    assert!(IconsSection::parse("[icon]\n").is_none());
    assert!(LibrariesSection::parse("libraries").is_none());
}

#[test]
fn dependencies_section_with_two_platforms() {
    let content = r#"[dependencies]
macos.release = {
    "res://bin/libdependency.macos.template_release.framework" : "Contents/Frameworks"
}
windows.debug = {
    "res://bin/libdependency.windows.template_debug.x86_64.dll" : "",
    "res://bin/libdependency.windows.template_debug.x86_32.dll" : ""
}
"#;
    let deps = DependenciesSection::parse(content).unwrap();
    assert_eq!(deps.dependencies.len(), 2);
    let macos = deps.dependencies.get("macos.release").unwrap();
    assert_eq!(macos.len(), 1);
    assert_eq!(
        value(macos, "res://bin/libdependency.macos.template_release.framework"),
        Some("Contents/Frameworks")
    );
    let windows = deps.dependencies.get("windows.debug").unwrap();
    assert_eq!(windows.len(), 2);
    assert_eq!(
        value(windows, "res://bin/libdependency.windows.template_debug.x86_64.dll"),
        Some("")
    );
    assert_eq!(
        value(windows, "res://bin/libdependency.windows.template_debug.x86_32.dll"),
        Some("")
    );
    assert_eq!(value(windows, "res://bin/libdependency.macos.template_release.framework"), None);
    assert_eq!(
        deps.to_string(),
        "[dependencies]\nmacos.release = {\n    \"res://bin/libdependency.macos.template_release.framework\" : \"Contents/Frameworks\"\n}\nwindows.debug = {\n    \"res://bin/libdependency.windows.template_debug.x86_64.dll\" : \"\"\n    \"res://bin/libdependency.windows.template_debug.x86_32.dll\" : \"\"\n}\n"
    );
    let doc = Gdextension::parse_from_str(content);
    assert_eq!(doc.dependencies.unwrap().dependencies.len(), 2);
}

#[test]
fn dependencies_block_that_recurs_begins_anew() {
    let content = "[dependencies]\na = {\n\"k1\" : \"v1\"\n}\nb = {\n\"k2\" : \"v2\"\n\"x\" : \"y\" : \"z\"\nno separator\n}\n\"outside\" : \"block\"\na = {\n\"k3\" : \"v3\"\n[other]\n\"k4\" : \"v4\"\n";
    let deps = DependenciesSection::parse(content).unwrap();
    assert_eq!(deps.dependencies.len(), 2);
    let a = deps.dependencies.get("a").unwrap();
    assert_eq!(a.len(), 1);
    assert_eq!(value(a, "k3"), Some("v3"));
    let b = deps.dependencies.get("b").unwrap();
    assert_eq!(b.len(), 1);
    assert_eq!(value(b, "k2"), Some("v2"));
    assert!(DependenciesSection::parse("[dependency]").is_none());
}

#[test]
fn extension_descriptor_with_all_sections() {
    let content = "; header\n\n[configuration]\nentry_symbol=\"init\"\n\n[libraries]\nlinux=\"a.so\"\n\n[icons]\nA=\"a.svg\"\n\n[unknown]\nk=v\n\n[dependencies]\np = {\n\"a\" : \"b\"\n}\n\n[configuration]\nreloadable=true\n";
    let doc = Gdextension::parse_from_str(content);
    let c = doc.configuration.unwrap();
    assert_eq!(c.entry_symbol, None);
    assert_eq!(c.reloadable, Some(true));
    assert_eq!(value(&doc.libraries.unwrap().libraries, "linux"), Some("a.so"));
    assert_eq!(value(&doc.icons.unwrap().icons, "A"), Some("a.svg"));
    let deps = doc.dependencies.unwrap();
    assert_eq!(value(deps.dependencies.get("p").unwrap(), "a"), Some("b"));
    let empty = Gdextension::parse_from_str("");
    assert!(empty.configuration.is_none());
}

#[test]
fn project_sections() {
    let application = ApplicationSection::parse(
        "[application]\nconfig/name=\"ExampleProject\"\nrun/main_scene=\"res://src/assets/main.tscn\"\nconfig/features=PackedStringArray(\"4.5\", \"GL Compatibility\")\nconfig/icon=\"res://icon.svg\"\n",
    )
    .unwrap();
    assert_eq!(application.name, Some("ExampleProject".to_string()));
    assert_eq!(application.main_scene, Some("res://src/assets/main.tscn".to_string()));
    assert_eq!(application.icon, Some("res://icon.svg".to_string()));
    assert_eq!(
        application.features,
        Some(vec!["4.5".to_string(), "GL Compatibility".to_string()])
    );
    let autoload =
        AutoloadSection::parse("[autoload]\ngamestate=\"*res://src/game/gamestate.tscn\"\n")
            .unwrap();
    assert_eq!(
        value(&autoload.autoloads, "gamestate"),
        Some("*res://src/game/gamestate.tscn")
    );
    let dotnet =
        DotnetSection::parse("[dotnet]\nproject/assembly_name=\"ExampleProject\"\n").unwrap();
    assert_eq!(dotnet.assembly_name, Some("ExampleProject".to_string()));
    assert_eq!(DotnetSection::parse("[dotnet]\n").unwrap().assembly_name, None);
    let rendering = RenderingSection::parse(
        "[rendering]\nrenderer/rendering_method=\"gl_compatibility\"\nrenderer/rendering_method.mobile=\"mobile\"\n",
    )
    .unwrap();
    assert_eq!(rendering.rendering_method, Some("gl_compatibility".to_string()));
    assert_eq!(rendering.rendering_method_mobile, Some("mobile".to_string()));
    let layers = LayerNamesSection::parse(
        "[layer_names]\n2d_physics/layer_1=\"collisions\"\n2d_physics/layer_2=\"noncolliding\"\n",
    )
    .unwrap();
    assert_eq!(value(&layers.layers, "2d_physics/layer_1"), Some("collisions"));
    assert_eq!(value(&layers.layers, "2d_physics/layer_2"), Some("noncolliding"));
    assert!(ApplicationSection::parse("[autoload]").is_none());
    assert!(AutoloadSection::parse("[application]").is_none());
    assert!(RenderingSection::parse("[dotnet]").is_none());
    assert!(LayerNamesSection::parse("[rendering]").is_none());
}

#[test]
fn features_list_forms() {
    let one = ApplicationSection::parse("[application]\nconfig/features=PackedStringArray()\n")
        .unwrap();
    assert_eq!(one.features, Some(vec!["".to_string()]));
    let plain = ApplicationSection::parse("[application]\nconfig/features= a , \"b\" ,c))\n")
        .unwrap();
    assert_eq!(
        plain.features,
        Some(vec!["a".to_string(), "b".to_string(), "c".to_string()])
    );
}

#[test]
fn project_descriptor() {
    let content = r#"; Engine configuration file.
config_version=5

[application]

config/name="Example"

[input]

Fire={
"deadzone": 0.5,
"events": [Object(InputEventMouseButton,"button_index":1,"position":Vector2(0, 0),"double_click":false,"script":null)
, Object(InputEventKey,"keycode":0,"physical_keycode":74,"unicode":106,"script":null)
]
}

[layer_names]

2d_physics/layer_1="collisions"

[rendering]

renderer/rendering_method="gl_compatibility"
"#;
    let project = ProjectGodot::parse_from_str(content);
    assert_eq!(project.config_version, Some(5));
    assert_eq!(project.application.unwrap().name, Some("Example".to_string()));
    assert!(project.autoload.is_none());
    assert!(project.dotnet.is_none());
    let input = project.input.unwrap();
    assert_eq!(input.inputs.len(), 1);
    let fire = input.inputs.get("Fire").unwrap();
    assert_eq!(fire.deadzone, Some("0.5".to_string()));
    assert_eq!(fire.events.len(), 1);
    assert_eq!(fire.events[0].get_key_string(), Some("left_click".to_string()));
    assert_eq!(
        value(&project.layer_names.unwrap().layers, "2d_physics/layer_1"),
        Some("collisions")
    );
    assert_eq!(
        project.rendering.unwrap().rendering_method,
        Some("gl_compatibility".to_string())
    );
}

#[test]
fn configuration_version_forms() {
    assert_eq!(ProjectGodot::parse_from_str("config_version=5").config_version, Some(5));
    assert_eq!(ProjectGodot::parse_from_str(" config_version = +5 \n").config_version, Some(5));
    assert_eq!(ProjectGodot::parse_from_str("config_version=-5\n").config_version, None);
    assert_eq!(ProjectGodot::parse_from_str("config_version=\"5\"\n").config_version, None);
    assert_eq!(
        ProjectGodot::parse_from_str("config_version=4\nconfig_version=x\n").config_version,
        None
    );
    assert_eq!(
        ProjectGodot::parse_from_str("config_version=4294967295\n[a]\n").config_version,
        Some(4294967295)
    );
    assert_eq!(
        ProjectGodot::parse_from_str("[application]\nconfig_version=5\n").config_version,
        None
    );
    assert_eq!(ProjectGodot::parse_from_str("").config_version, None);
}

#[test]
fn map_replaces_in_place_and_removes() {
    let mut m: StrMap<i32> = StrMap::new();
    assert!(m.is_empty());
    assert_eq!(m.insert("a", 1), None);
    assert_eq!(m.insert("b", 2), None);
    assert_eq!(m.insert("a", 3), Some(1));
    assert_eq!(m.len(), 2);
    assert_eq!(m.position("a"), 0);
    assert_eq!(m.position("b"), 1);
    assert_eq!(m.position("c"), 2);
    assert_eq!(m.entry(0), (&"a".to_string(), &3));
    assert!(m.contains_key("b"));
    assert!(!m.contains_key("c"));
    assert_eq!(m.remove("a"), Some(3));
    assert_eq!(m.remove("a"), None);
    assert_eq!(m.len(), 1);
    assert_eq!(m.get("b"), Some(&2));
    assert_eq!(m.get("a"), None);
}

#[test]
fn dependency_value_stands_between_its_quotes() {
    let content = "[dependencies]\nlinux.debug = {\n    \"res://a.so\" : \"lib\",\n    \"res://b.so\" : \"\"\n}\n";
    let deps = DependenciesSection::parse(content).unwrap();
    let linux = deps.dependencies.get("linux.debug").unwrap();
    assert_eq!(linux.len(), 2);
    assert_eq!(value(linux, "res://a.so"), Some("lib"));
    assert_eq!(value(linux, "res://b.so"), Some(""));
}

#[test]
fn dependency_entry_forms() {
    let content = "[dependencies]\np = {\n\"a\" : \"x\",\n\"b\" : \"\",\n\"c\" : \"y\" ,\n\"d\" : \"z\",,\n  \"e\"  :  \"a,b\"  \n\"f\" : plain,\n}\n";
    let deps = DependenciesSection::parse(content).unwrap();
    let p = deps.dependencies.get("p").unwrap();
    assert_eq!(value(p, "a"), Some("x"));
    assert_eq!(value(p, "b"), Some(""));
    assert_eq!(value(p, "c"), Some("y"));
    assert_eq!(value(p, "d"), Some("z"));
    assert_eq!(value(p, "e"), Some("a,b"));
    assert_eq!(value(p, "f"), Some("plain"));
    assert_eq!(p.len(), 6);
}

#[test]
fn escaped_quote_does_not_end_the_quotes() {
    assert_eq!(
        texts(&split_top_level(&chars("\"a\\\",b\""), ',')),
        vec!["\"a\\\",b\""]
    );
    assert_eq!(
        texts(&split_top_level(&chars("\"a\\\"b\",c"), ',')),
        vec!["\"a\\\"b\"", "c"]
    );
    // An escaped backslash escapes nothing: the quote behind it ends the quotes.
    assert_eq!(
        texts(&split_top_level(&chars("\"a\\\\\",b"), ',')),
        vec!["\"a\\\\\"", "b"]
    );
    // Outside quotes a backslash is a character like any other.
    assert_eq!(
        texts(&split_top_level(&chars("a\\\"b,c\",d"), ',')),
        vec!["a\\\"b,c\"", "d"]
    );
    assert_eq!(
        texts(&split_top_level(&chars("\"\\(\",(x\\),y),z"), ',')),
        vec!["\"\\(\"", "(x\\)", "y)", "z"]
    );
}

#[test]
fn escaped_quote_inside_an_event_value() {
    let pairs = zgrcg::splitter::split_properties_string(r#""a":"x\",y","b":1"#);
    assert_eq!(
        pairs,
        vec![
            ("a".to_string(), r#""x\",y""#.to_string()),
            ("b".to_string(), "1".to_string())
        ]
    );
    let spans = zgrcg::event::split_events_array(r#"[Object(A,"x":"\")"), Object(B,"y":2)]"#);
    assert_eq!(
        spans,
        vec![
            r#"Object(A,"x":"\")")"#.to_string(),
            r#"Object(B,"y":2)"#.to_string()
        ]
    );
}
