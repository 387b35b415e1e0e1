use baldej::framework::{get_fps, DebugMode, Framework};
use baldej::input::{ElementState, InputEvent, InputEventType, InputManager, MouseButton};

fn key(key: u32, state: ElementState) -> InputEvent {
    InputEvent::KeyboardInput { key, state }
}

#[test]
fn press_makes_bind_pressed_and_down() {
    let mut input = InputManager::new();
    input.new_bind("jump", vec![InputEventType::Key(32)]);
    assert!(!input.is_bind_pressed("jump"));
    input.reg_event(&key(32, ElementState::Pressed));
    assert!(input.is_bind_pressed("jump"));
    assert!(input.is_bind_down("jump"));
    assert!(!input.is_bind_released("jump"));
}

#[test]
fn update_keeps_held_keys_and_clears_presses() {
    let mut input = InputManager::new();
    input.new_bind("jump", vec![InputEventType::Key(32)]);
    input.reg_event(&key(32, ElementState::Pressed));
    input.update();
    assert!(!input.is_bind_pressed("jump"));
    assert!(input.is_bind_down("jump"));
    input.reg_event(&key(32, ElementState::Pressed));
    assert!(!input.is_bind_pressed("jump"));
}

#[test]
fn release_frees_the_key() {
    let mut input = InputManager::new();
    input.new_bind("fire", vec![InputEventType::Mouse(MouseButton::Left)]);
    input.reg_event(&InputEvent::MouseInput { button: MouseButton::Left, state: ElementState::Pressed });
    input.reg_event(&InputEvent::MouseInput { button: MouseButton::Left, state: ElementState::Released });
    assert!(!input.is_bind_down("fire"));
    assert!(input.is_bind_released("fire"));
    input.update();
    assert!(!input.is_bind_released("fire"));
}

#[test]
fn keys_outside_every_bind_are_ignored() {
    let mut input = InputManager::new();
    input.new_bind("left", vec![InputEventType::Key(1)]);
    input.reg_event(&key(2, ElementState::Pressed));
    input.new_bind("right", vec![InputEventType::Key(2)]);
    assert!(!input.is_bind_down("right"));
    assert!(!input.is_bind_down("missing"));
}

#[test]
fn new_bind_appends_to_an_existing_bind() {
    let mut input = InputManager::new();
    input.new_bind("move", vec![InputEventType::Key(1)]);
    input.new_bind("move", vec![InputEventType::Key(2)]);
    assert_eq!(
        input.get_bind_keys("move".to_string()),
        Some(vec![InputEventType::Key(1), InputEventType::Key(2)])
    );
    assert_eq!(input.get_bind_keys("none".to_string()), None);
    input.reg_event(&key(2, ElementState::Pressed));
    assert!(input.is_bind_pressed("move"));
}

#[test]
fn mouse_lock_is_remembered() {
    let mut input = InputManager::new();
    assert!(!input.is_mouse_locked());
    input.set_mouse_locked(true);
    assert!(input.is_mouse_locked());
}

#[test]
fn debug_toggle_switches_between_hidden_and_fps() {
    let mut framework: Framework<u32> = Framework::new(DebugMode::Hidden);
    framework.input.new_bind("debug_toggle", vec![InputEventType::Key(96)]);
    framework.update_debug_mode();
    assert_eq!(framework.debug_mode(), DebugMode::Hidden);
    framework.input.reg_event(&key(96, ElementState::Pressed));
    framework.update_debug_mode();
    assert_eq!(framework.debug_mode(), DebugMode::ShowFps);
    framework.update_debug_mode();
    assert_eq!(framework.debug_mode(), DebugMode::Hidden);
    framework.set_debug_mode(DebugMode::Full);
    framework.update_debug_mode();
    assert_eq!(framework.debug_mode(), DebugMode::Hidden);
}

#[test]
fn full_debug_checkbox_sets_mode() {
    let mut framework: Framework<u32> = Framework::new(DebugMode::Hidden);
    framework.handle_full_debug_checkbox_value(true);
    assert_eq!(framework.debug_mode(), DebugMode::Full);
    framework.handle_full_debug_checkbox_value(false);
    assert_eq!(framework.debug_mode(), DebugMode::ShowFps);
}

#[test]
fn global_values_are_replaced_and_read_back() {
    let mut framework: Framework<u32> = Framework::new(DebugMode::Hidden);
    assert_eq!(framework.get_global_system_value("gold"), None);
    framework.set_global_system_value("gold", vec![1, 2]);
    framework.set_global_system_value("gold", vec![3]);
    assert_eq!(framework.get_global_system_value("gold"), Some(vec![3]));
}

#[test]
fn framework_load_save_merges_values() {
    let mut framework: Framework<u32> = Framework::new(DebugMode::Hidden);
    framework.set_global_system_value("gold", vec![1]);
    framework.set_global_system_value("keep", vec![7]);
    let r = framework.load_save(
        "slot",
        |_s: &str| Some("[\"gold\", \"broken\", \"level\"]".to_string()),
        |_s: &str, n: &str| match n {
            "gold" => Some(vec![100]),
            "level" => Some(vec![4]),
            _ => None,
        },
    );
    assert_eq!(r, Ok(()));
    assert_eq!(framework.get_global_system_value("gold"), Some(vec![100]));
    assert_eq!(framework.get_global_system_value("level"), Some(vec![4]));
    assert_eq!(framework.get_global_system_value("keep"), Some(vec![7]));
    assert_eq!(framework.get_global_system_value("broken"), None);
    assert_eq!(framework.saves.current_save_name(), Some("slot"));
}

#[test]
fn framework_load_save_fails_without_names() {
    let mut framework: Framework<u32> = Framework::new(DebugMode::Hidden);
    framework.set_global_system_value("gold", vec![1]);
    let r = framework.load_save("slot", |_s: &str| None, |_s: &str, _n: &str| Some(vec![5]));
    assert_eq!(r, Err(()));
    assert_eq!(framework.get_global_system_value("gold"), Some(vec![1]));
    assert_eq!(framework.saves.current_save_name(), Some("slot"));
}

#[test]
fn fps_is_reported_after_one_second() {
    assert_eq!(get_fps(999_999_999, 60), None);
    assert_eq!(get_fps(1_000_000_000, 60), None);
    assert_eq!(get_fps(1_000_000_001, 60), Some(60));
}

#[test]
fn framework_forwards_saves_and_binds() {
    let mut framework: Framework<u32> = Framework::new(DebugMode::Hidden);
    framework.register_save_value("gold");
    framework.register_save_value("gold");
    framework.register_save_value("level");
    framework.set_global_system_value("gold", vec![5]);
    let plan = framework.new_save("slot");
    assert_eq!(plan.values_to_save, vec!["gold".to_string()]);
    assert_eq!(plan.missing_values, vec!["level".to_string()]);
    framework.unregister_save_value("gold");
    let plan = framework.save_game().unwrap();
    assert!(plan.values_to_save.is_empty());
    framework.save_lazy_value("x", vec![8]);
    assert_eq!(framework.load_lazy_value("x", |_s: &str, _n: &str| None), Some(vec![8]));
    assert_eq!(framework.load_lazy_value("y", |_s: &str, _n: &str| Some(vec![2])), Some(vec![2]));
    assert!(!framework.is_mouse_locked());
    framework.set_mouse_locked(true);
    assert!(framework.is_mouse_locked());
    assert!(!framework.is_bind_pressed("jump"));
    assert!(!framework.is_bind_down("jump"));
    assert!(!framework.is_bind_released("jump"));
    framework.input.new_bind("jump", vec![InputEventType::Key(32)]);
    framework.input.reg_event(&key(32, ElementState::Pressed));
    assert!(framework.is_bind_pressed("jump"));
    assert!(framework.is_bind_down("jump"));
    framework.input.reg_event(&key(32, ElementState::Released));
    assert!(framework.is_bind_released("jump"));
}

#[test]
fn repeated_presses_and_releases_are_held_once() {
    let mut input = InputManager::new();
    input.new_bind("jump", vec![InputEventType::Key(32)]);
    input.reg_event(&key(32, ElementState::Pressed));
    input.reg_event(&key(32, ElementState::Pressed));
    assert!(input.is_bind_down("jump"));
    input.reg_event(&key(32, ElementState::Released));
    input.reg_event(&key(32, ElementState::Released));
    assert!(!input.is_bind_down("jump"));
    assert!(input.is_bind_released("jump"));
    input.update();
    assert!(!input.is_bind_released("jump"));
    assert!(!input.is_bind_pressed("jump"));
}
