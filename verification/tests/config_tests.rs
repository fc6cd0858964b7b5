use color_hoster::config::{
    extract_led, flatten_menus, parse_hex, parse_leds, Config, IndexedOption, KeyboardJson,
    KeymapEntry, Layouts, MatrixDimensions, Menu, MenuContent, MenuOption,
};
use color_hoster::config::{key_readable, keymap_readable, mode_flags, Control};

fn key(s: &str) -> KeymapEntry {
    KeymapEntry::Key(s.to_string())
}

fn id(s: &str) -> Option<String> {
    Some(s.to_string())
}

fn sample_options() -> Vec<MenuOption> {
    vec![
        MenuOption::Range {
            id: id("id_qmk_rgb_matrix_brightness"),
            options: (0, 200),
            show_if: id("{id_qmk_rgb_matrix_effect} != 0"),
        },
        MenuOption::Range {
            id: id("id_qmk_rgb_matrix_effect_speed"),
            options: (0, 255),
            show_if: id("{id_qmk_rgb_matrix_effect} > 1"),
        },
        MenuOption::Dropdown {
            id: id("id_qmk_rgb_matrix_effect"),
            options: vec![
                IndexedOption::Explicit("All Off".to_string(), 0),
                IndexedOption::Explicit("Solid Color".to_string(), 1),
                IndexedOption::Implicit("Breathing".to_string()),
                IndexedOption::Explicit("Direct".to_string(), 3),
                IndexedOption::Implicit("Rainbow".to_string()),
            ],
        },
        MenuOption::Color {
            id: id("id_qmk_rgb_matrix_color"),
            show_if: id("{id_qmk_rgb_matrix_effect} == 1 || {id_qmk_rgb_matrix_effect} == 2"),
        },
        MenuOption::ColorPalette {
            id: id("id_qmk_rgb_matrix_color"),
            show_if: id("{id_qmk_rgb_matrix_effect} == 3"),
        },
        MenuOption::Other,
    ]
}

fn names(effects: &[(String, i32, u32)]) -> Vec<(&str, i32, u32)> {
    effects.iter().map(|(n, i, f)| (n.as_str(), *i, *f)).collect()
}

#[test]
fn extract_led_reads_position_and_index() {
    assert_eq!(extract_led(&"0,1\nl5".to_string()), Some((5, (0, 1))));
    assert_eq!(extract_led(&" 2 , 3 \nl7".to_string()), Some((7, (2, 3))));
    assert_eq!(extract_led(&"+1,2\nl+3".to_string()), Some((3, (1, 2))));
    assert_eq!(extract_led(&"4,5\nl9\nextra".to_string()), Some((9, (4, 5))));
}

#[test]
fn extract_led_rejects_keys_without_led() {
    assert_eq!(extract_led(&"0,1".to_string()), None);
    assert_eq!(extract_led(&"0,1\nx5".to_string()), None);
    assert_eq!(extract_led(&"0,1\nl".to_string()), None);
    assert_eq!(extract_led(&"0,1\nl300".to_string()), None);
    assert_eq!(extract_led(&"a,1\nl3".to_string()), None);
    assert_eq!(extract_led(&"1,b\nl3".to_string()), None);
    assert_eq!(extract_led(&"256,1\nl3".to_string()), None);
    assert_eq!(extract_led(&"1,-1\nl3".to_string()), None);
    assert_eq!(extract_led(&"x".to_string()), None);
}

#[test]
fn extract_led_skips_encoders() {
    assert_eq!(extract_led(&"0,0\nl3\n\n\n\n\n\n\n\ne0".to_string()), None);
    assert_eq!(extract_led(&"0,0\nl3\n\n\n\n\n\n\n\nx0".to_string()), Some((3, (0, 0))));
    assert_eq!(extract_led(&"0,0\nl3\n\n\n\n\n\n\ne0".to_string()), Some((3, (0, 0))));
}

#[test]
fn parse_hex_reads_usb_ids() {
    assert_eq!(parse_hex("0x320F"), 0x320F);
    assert_eq!(parse_hex("0xfeed"), 0xFEED);
    assert_eq!(parse_hex("FF"), 0xFF);
    assert_eq!(parse_hex("+ff"), 0xFF);
    assert_eq!(parse_hex("0x0x10"), 0x10);
    assert_eq!(parse_hex("0xFFFF"), 0xFFFF);
}

#[test]
fn parse_hex_gives_zero_for_bad_ids() {
    assert_eq!(parse_hex(""), 0);
    assert_eq!(parse_hex("0x"), 0);
    assert_eq!(parse_hex("zz"), 0);
    assert_eq!(parse_hex("0x10000"), 0);
    assert_eq!(parse_hex("0X10"), 0);
    assert_eq!(parse_hex(" 0x10"), 0);
    assert_eq!(parse_hex("+"), 0);
}

#[test]
fn parse_leds_sorts_and_skips() {
    let keymap = vec![
        vec![key("0,0\nl2"), key("0,1\nl0"), KeymapEntry::Other],
        vec![key("1,0\nl1"), key("1,1"), key("1,2\nl0")],
        vec![],
        vec![key("2,0\nl5\n\n\n\n\n\n\n\ne1")],
    ];
    let leds = parse_leds(&keymap);
    assert_eq!(leds, vec![(0, (0, 1)), (0, (1, 2)), (1, (1, 0)), (2, (0, 0))]);
}

#[test]
fn flatten_menus_keeps_order() {
    let menus = vec![
        Menu {
            content: vec![
                MenuContent { content: vec![MenuOption::Other] },
                MenuContent {
                    content: vec![MenuOption::Color { id: id("a"), show_if: None }],
                },
            ],
        },
        Menu { content: vec![] },
        Menu {
            content: vec![MenuContent {
                content: vec![MenuOption::Range { id: id("b"), options: (1, 2), show_if: None }],
            }],
        },
    ];
    let options = flatten_menus(menus);
    assert_eq!(options.len(), 3);
    assert!(matches!(options[0], MenuOption::Other));
    assert!(matches!(&options[1], MenuOption::Color { id: Some(i), .. } if i == "a"));
    assert!(matches!(&options[2], MenuOption::Range { options: (1, 2), .. }));
}

#[test]
fn find_range_takes_first_match() {
    let options = vec![
        MenuOption::Range { id: None, options: (9, 9), show_if: None },
        MenuOption::Range { id: id("other"), options: (8, 8), show_if: None },
        MenuOption::Range { id: id("speed"), options: (1, 50), show_if: None },
        MenuOption::Range { id: id("speed"), options: (2, 60), show_if: None },
    ];
    assert_eq!(Config::find_range(&options, "speed"), (1, 50));
    assert_eq!(Config::find_range(&options, "missing"), (0, 0));
    assert_eq!(Config::find_range(&vec![], "speed"), (0, 0));
}

#[test]
fn mode_flags_add_random_and_manual_save() {
    assert_eq!(mode_flags(0, 0), 0);
    assert_eq!(mode_flags(0, 4), 128);
    assert_eq!(mode_flags(1, 4), 1 | 128 | 256);
    assert_eq!(mode_flags(64, 1), 64 | 256);
    assert_eq!(mode_flags(32, 3), 32);
    assert_eq!(mode_flags(16, 0), 16);
}

#[test]
fn control_conditions_follow_evalexpr() {
    let always = Control::new(&None, 16);
    assert!(always.is_active(0));
    assert!(always.is_active(7));
    let some = Control::new(&id("{id_qmk_rgb_matrix_effect} != 0"), 16);
    assert!(some.condition.is_some());
    assert!(!some.is_active(0));
    assert!(some.is_active(2));
    let malformed = Control::new(&id("(("), 16);
    assert!(malformed.condition.is_none());
    assert!(malformed.is_active(0));
    let unbound = Control::new(&id("{other} == 1"), 16);
    assert!(unbound.condition.is_some());
    assert!(!unbound.is_active(1));
    let not_boolean = Control::new(&id("{id_qmk_rgb_matrix_effect} + 1"), 16);
    assert!(!not_boolean.is_active(1));
}

#[test]
fn parse_effects_lifts_direct_mode() {
    let effects = Config::parse_effects(sample_options());
    assert_eq!(
        names(&effects),
        vec![
            ("Direct", 3, 16 | 1 | 32 | 256),
            ("All Off", 0, 0),
            ("Solid Color", 1, 16 | 64 | 256),
            ("Breathing", 2, 16 | 1 | 64 | 256),
            ("Rainbow", 4, 16 | 1 | 128 | 256),
        ]
    );
}

#[test]
fn parse_effects_without_dropdown_is_empty() {
    let options = vec![MenuOption::Dropdown { id: id("other"), options: vec![IndexedOption::Implicit("x".to_string())] }];
    assert!(Config::parse_effects(options).is_empty());
}

#[test]
fn collect_controls_picks_known_ids() {
    let controls = Config::collect_controls(&sample_options());
    let flags: Vec<u32> = controls.iter().map(|c| c.flag).collect();
    assert_eq!(flags, vec![16, 1, 64, 32]);
}

fn sample_json() -> KeyboardJson {
    KeyboardJson {
        name: "Lemokey P1 HE".to_string(),
        vendor: None,
        vendor_id: "0x362D".to_string(),
        product_id: "0x0301".to_string(),
        matrix: MatrixDimensions { rows: 2, cols: 3 },
        menus: vec![Menu { content: vec![MenuContent { content: sample_options() }] }],
        layouts: Layouts {
            keymap: vec![vec![key("1,2\nl4"), key("0,0\nl1")], vec![KeymapEntry::Other, key("0,1\nl0")]],
        },
    }
}

#[test]
fn from_keyboard_json_builds_config() {
    let config = Config::from_keyboard_json(sample_json());
    assert_eq!(config.name, "Lemokey P1 HE");
    assert_eq!(config.vendor, "Unknown");
    assert_eq!(config.vendor_id, 0x362D);
    assert_eq!(config.product_id, 0x0301);
    assert_eq!(config.matrix, (3, 2));
    assert_eq!(config.leds, vec![(0, (0, 1)), (1, (0, 0)), (4, (1, 2))]);
    assert_eq!(config.speed, (0, 255));
    assert_eq!(config.brightness, (0, 200));
    assert_eq!(config.effects.len(), 5);
    assert_eq!(config.effects[0].0, "Direct");
    assert_eq!(config.count_leds(), 5);
}

#[test]
fn from_keyboard_json_keeps_vendor() {
    let mut json = sample_json();
    json.vendor = Some("Keychron".to_string());
    json.menus = vec![];
    let config = Config::from_keyboard_json(json);
    assert_eq!(config.vendor, "Keychron");
    assert_eq!(config.speed, (0, 0));
    assert_eq!(config.brightness, (0, 0));
    assert!(config.effects.is_empty());
}

#[test]
fn count_leds_is_one_past_highest_index() {
    let mut config = Config::from_keyboard_json(sample_json());
    assert_eq!(config.count_leds(), 5);
    config.leds = vec![];
    assert_eq!(config.count_leds(), 0);
    config.leds = vec![(255, (0, 0))];
    assert_eq!(config.count_leds(), 256);
}

#[test]
fn mode_index_and_effect_id_invert() {
    let config = Config::from_keyboard_json(sample_json());
    assert_eq!(config.get_mode_index(3), Some(0));
    assert_eq!(config.get_mode_index(0), Some(1));
    assert_eq!(config.get_mode_index(4), Some(4));
    assert_eq!(config.get_mode_index(42), None);
    assert_eq!(config.get_effect_id(0), Some(3));
    assert_eq!(config.get_effect_id(4), Some(4));
    assert_eq!(config.get_effect_id(5), None);
    for i in 0..config.effects.len() {
        let effect = config.get_effect_id(i).unwrap();
        assert_eq!(config.get_mode_index(effect), Some(i));
    }
}

#[test]
fn long_conditions_evaluate() {
    let terms: Vec<String> = (0..70).map(|k| format!("{{id_qmk_rgb_matrix_effect}} == {k}")).collect();
    let flat = terms.join(" || ");
    assert!(flat.chars().count() > 2000);
    let control = Control::new(&Some(flat), 16);
    assert!(control.condition.is_some());
    assert!(control.is_active(5));
    assert!(control.is_active(69));
    assert!(!control.is_active(70));
    let negations = format!("{}true", "!".repeat(1030));
    let control = Control::new(&Some(negations), 16);
    assert!(control.condition.is_some());
    assert!(control.is_active(0));
}

#[test]
fn key_legends_readable() {
    assert!(key_readable(&"1,2\nl4".to_string()));
    assert!(key_readable(&"x\nl4".to_string()));
    assert!(key_readable(&"".to_string()));
    assert!(!key_readable(&"1\nl4".to_string()));
    assert!(!key_readable(&" 7 ".to_string()));
}

#[test]
fn keymap_readable_checks_every_key() {
    assert!(keymap_readable(&sample_json().layouts.keymap));
    assert!(keymap_readable(&vec![]));
    let keymap = vec![vec![key("0,0\nl1")], vec![KeymapEntry::Other, key("2\nl3")]];
    assert!(!keymap_readable(&keymap));
}

#[test]
fn checked_definition_reads_or_refuses() {
    let config = Config::from_keyboard_json_checked(sample_json()).expect("readable keymap");
    assert_eq!(config.leds, vec![(0, (0, 1)), (1, (0, 0)), (4, (1, 2))]);
    assert_eq!(config.vendor_id, 0x362D);
    let mut json = sample_json();
    json.layouts.keymap[1].push(key("3\nl9"));
    assert!(Config::from_keyboard_json_checked(json).is_none());
}

#[test]
fn conditions_cannot_call_functions() {
    let min = Control::new(&id("min({id_qmk_rgb_matrix_effect}, 1) == 1"), 16);
    assert!(min.condition.is_some());
    assert!(!min.is_active(0));
    let substring = Control::new(&id("str::substring(\"\u{e9}\", 1) == \"\""), 16);
    assert!(!substring.is_active(0));
}

#[test]
fn config_clone_keeps_everything() {
    let config = Config::from_keyboard_json(sample_json());
    let copy = config.clone();
    assert_eq!(copy.name, config.name);
    assert_eq!(copy.vendor, config.vendor);
    assert_eq!(copy.vendor_id, config.vendor_id);
    assert_eq!(copy.product_id, config.product_id);
    assert_eq!(copy.leds, config.leds);
    assert_eq!(copy.effects, config.effects);
    assert_eq!(copy.speed, config.speed);
    assert_eq!(copy.brightness, config.brightness);
    assert_eq!(copy.matrix, config.matrix);
}
