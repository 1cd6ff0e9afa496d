use universe_remote::input::{
    map_coordinate, map_key, plan_input, CoordinateMap, InputCommand, MouseButton, NamedKey, RemoteAction,
};

fn action(name: &str) -> RemoteAction {
    RemoteAction { action: name.to_string(), x: None, y: None, button: None, key: None }
}

#[test]
fn coordinates_scale_by_downscale_and_device_factor() {
    let map = CoordinateMap { downscale: 2, scale_milli: 1250 };
    assert_eq!(map_coordinate(101, map), 252);
    assert_eq!(map_coordinate(100, map), 250);
    assert_eq!(map_coordinate(-101, map), -252);
    assert_eq!(map_coordinate(0, map), 0);
    let unit = CoordinateMap { downscale: 1, scale_milli: 1000 };
    assert_eq!(map_coordinate(i32::MAX, unit), i32::MAX);
    let big = CoordinateMap { downscale: 4, scale_milli: 2000 };
    assert_eq!(map_coordinate(i32::MAX, big), i32::MAX);
    assert_eq!(map_coordinate(i32::MIN, big), i32::MIN);
}

#[test]
fn click_moves_then_clicks() {
    let mut a = action("click");
    a.x = Some(10);
    a.y = Some(20);
    a.button = Some("right".to_string());
    let cmds = plan_input(&a, CoordinateMap { downscale: 2, scale_milli: 1500 });
    assert_eq!(cmds.len(), 2);
    assert!(matches!(cmds[0], InputCommand::MoveTo { x: 30, y: 60 }));
    assert!(matches!(cmds[1], InputCommand::Click(MouseButton::Right)));
}

#[test]
fn click_defaults_to_origin_and_left_button() {
    let mut a = action("click");
    a.button = Some("middle".to_string());
    let cmds = plan_input(&a, CoordinateMap { downscale: 2, scale_milli: 1000 });
    assert!(matches!(cmds[0], InputCommand::MoveTo { x: 0, y: 0 }));
    assert!(matches!(cmds[1], InputCommand::Click(MouseButton::Left)));
}

#[test]
fn named_keys_map_to_key_presses() {
    let table = [
        ("Enter", NamedKey::Return),
        ("Backspace", NamedKey::Backspace),
        ("Tab", NamedKey::Tab),
        ("Escape", NamedKey::Escape),
        ("ArrowUp", NamedKey::UpArrow),
        ("ArrowDown", NamedKey::DownArrow),
        ("ArrowLeft", NamedKey::LeftArrow),
        ("ArrowRight", NamedKey::RightArrow),
    ];
    for (name, key) in table {
        match map_key(&name.to_string()) {
            Some(InputCommand::KeyClick(k)) => assert_eq!(k, key),
            _ => panic!("{name} is not a named key"),
        }
    }
}

#[test]
fn modifier_keys_are_not_forwarded() {
    for name in ["Shift", "Control", "Alt"] {
        assert!(map_key(&name.to_string()).is_none());
    }
}

#[test]
fn other_keys_are_typed_as_text() {
    match map_key(&"a".to_string()) {
        Some(InputCommand::TypeText(t)) => assert_eq!(t, "a"),
        _ => panic!("expected text"),
    }
    match map_key(&"enter".to_string()) {
        Some(InputCommand::TypeText(t)) => assert_eq!(t, "enter"),
        _ => panic!("expected text"),
    }
}

#[test]
fn key_action_plans_key_command() {
    let mut a = action("key");
    a.key = Some("Enter".to_string());
    let cmds = plan_input(&a, CoordinateMap { downscale: 2, scale_milli: 1000 });
    assert_eq!(cmds.len(), 1);
    assert!(matches!(cmds[0], InputCommand::KeyClick(NamedKey::Return)));
    a.key = Some("Alt".to_string());
    assert!(plan_input(&a, CoordinateMap { downscale: 2, scale_milli: 1000 }).is_empty());
}

#[test]
fn unknown_or_incomplete_actions_do_nothing() {
    let map = CoordinateMap { downscale: 2, scale_milli: 1000 };
    assert!(plan_input(&action("key"), map).is_empty());
    assert!(plan_input(&action("scroll"), map).is_empty());
    assert!(plan_input(&action("Click"), map).is_empty());
    assert!(plan_input(&action(""), map).is_empty());
}
