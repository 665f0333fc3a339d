use asteroids::utils::{is_key_pressed, key_down, key_of, key_up, Key, KeyState};

#[test]
fn names_of_the_keys() {
    assert_eq!(key_of("A"), Some(Key::RotateLeft));
    assert_eq!(key_of("D"), Some(Key::RotateRight));
    assert_eq!(key_of("W"), Some(Key::Thrust));
    assert_eq!(key_of(" "), Some(Key::Fire));
}

#[test]
fn other_names_are_no_keys() {
    assert_eq!(key_of(""), None);
    assert_eq!(key_of("a"), None);
    assert_eq!(key_of("S"), None);
    assert_eq!(key_of("AD"), None);
    assert_eq!(key_of("Space"), None);
}

#[test]
fn keys_go_down_and_up() {
    let mut keys = KeyState::new();
    assert!(!is_key_pressed(&keys, "W"));
    key_down(&mut keys, "W");
    assert!(is_key_pressed(&keys, "W"));
    assert!(!is_key_pressed(&keys, "A"));
    key_down(&mut keys, " ");
    assert!(is_key_pressed(&keys, " "));
    key_up(&mut keys, "W");
    assert!(!is_key_pressed(&keys, "W"));
    assert!(is_key_pressed(&keys, " "));
}

#[test]
fn an_unknown_key_is_never_held() {
    let mut keys = KeyState::new();
    key_down(&mut keys, "Q");
    assert_eq!(keys, KeyState::new());
    assert!(!is_key_pressed(&keys, "Q"));
    key_up(&mut keys, "Q");
    assert_eq!(keys, KeyState::new());
}
